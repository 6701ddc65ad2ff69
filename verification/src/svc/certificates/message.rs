//! The requests that bring the proxy from one snapshot to the next.

use crate::svc::certificates::bundle::{CertificateAndKey, CertificateAndKeyView};
use crate::svc::certificates::diff::{added_order, deleted_order, modified_order};
use crate::svc::certificates::parse::{fingerprint_text, hex};
use crate::svc::certificates::pathmap::{Listing, PathMap};
use crate::svc::certificates::{diff, Metadata, MetadataView};
use vstd::prelude::*;

verus! {

// -------------------------------------------------------------------------------------
// Error

/// A path of the diff has nothing behind it.
#[derive(Debug, PartialEq, Eq)]
pub enum Error {
    /// No bundle was loaded for a path that is to be added or replaced.
    NoPKIAt(String),
    /// No metadata is known for a path of the diff.
    NoMetadataFor(String),
}

// -------------------------------------------------------------------------------------
// Requests

/// An IPv4 or IPv6 address, as its number.
#[derive(Debug, Clone, Copy, PartialEq, Eq)]
pub enum IpAddress {
    V4(u32),
    V6(u128),
}

/// The address of a listener of the proxy.
#[derive(Debug, Clone, Copy, PartialEq, Eq)]
pub struct SocketAddress {
    pub ip: IpAddress,
    pub port: u16,
}

/// Asks a listener to load a certificate.
#[derive(Debug, PartialEq, Eq)]
pub struct AddCertificate {
    pub address: SocketAddress,
    pub certificate: CertificateAndKey,
    /// Overrides the certificate's own expiry; never set here.
    pub expired_at: Option<i64>,
}

/// Asks a listener to drop the certificate with a given fingerprint.
#[derive(Debug, PartialEq, Eq)]
pub struct RemoveCertificate {
    pub address: SocketAddress,
    /// The fingerprint in lower-case hexadecimal.
    pub fingerprint: String,
}

/// Asks a listener to swap the certificate with a given fingerprint for a
/// new one.
#[derive(Debug, PartialEq, Eq)]
pub struct ReplaceCertificate {
    pub address: SocketAddress,
    pub new_certificate: CertificateAndKey,
    /// The old fingerprint in lower-case hexadecimal.
    pub old_fingerprint: String,
    /// Overrides the new certificate's own expiry; never set here.
    pub new_expired_at: Option<i64>,
}

/// A request to the proxy.
#[derive(Debug, PartialEq, Eq)]
pub enum RequestType {
    AddCertificate(AddCertificate),
    RemoveCertificate(RemoveCertificate),
    ReplaceCertificate(ReplaceCertificate),
}

/// A [`RequestType`] as the value it stands for.
pub enum RequestView {
    AddCertificate { address: SocketAddress, certificate: CertificateAndKeyView, expired_at: Option<i64> },
    RemoveCertificate { address: SocketAddress, fingerprint: Seq<char> },
    ReplaceCertificate {
        address: SocketAddress,
        new_certificate: CertificateAndKeyView,
        old_fingerprint: Seq<char>,
        new_expired_at: Option<i64>,
    },
}

impl View for RequestType {
    type V = RequestView;

    open spec fn view(&self) -> RequestView {
        match self {
            RequestType::AddCertificate(add) => RequestView::AddCertificate {
                address: add.address,
                certificate: add.certificate@,
                expired_at: add.expired_at,
            },
            RequestType::RemoveCertificate(remove) => RequestView::RemoveCertificate {
                address: remove.address,
                fingerprint: remove.fingerprint@,
            },
            RequestType::ReplaceCertificate(replace) => RequestView::ReplaceCertificate {
                address: replace.address,
                new_certificate: replace.new_certificate@,
                old_fingerprint: replace.old_fingerprint@,
                new_expired_at: replace.new_expired_at,
            },
        }
    }
}

impl Clone for RequestType {
    fn clone(&self) -> (copy: Self)
        ensures
            copy@ == self@,
    {
        match self {
            RequestType::AddCertificate(add) => RequestType::AddCertificate(
                AddCertificate {
                    address: add.address,
                    certificate: add.certificate.clone(),
                    expired_at: add.expired_at,
                },
            ),
            RequestType::RemoveCertificate(remove) => RequestType::RemoveCertificate(
                RemoveCertificate {
                    address: remove.address,
                    fingerprint: remove.fingerprint.clone(),
                },
            ),
            RequestType::ReplaceCertificate(replace) => RequestType::ReplaceCertificate(
                ReplaceCertificate {
                    address: replace.address,
                    new_certificate: replace.new_certificate.clone(),
                    old_fingerprint: replace.old_fingerprint.clone(),
                    new_expired_at: replace.new_expired_at,
                },
            ),
        }
    }
}

/// A list of requests, each with the path it is about, as the values they
/// stand for.
pub open spec fn listed(requests: Seq<(String, RequestType)>) -> Seq<(Seq<char>, RequestView)> {
    requests.map_values(|r: (String, RequestType)| (r.0@, r.1@))
}

// -------------------------------------------------------------------------------------
// What the requests of a diff are

/// The request that adds the bundle loaded from a path.
pub open spec fn addition(
    address: SocketAddress,
    pki: Map<Seq<char>, CertificateAndKeyView>,
) -> spec_fn(Seq<char>) -> (Seq<char>, RequestView) {
    |p: Seq<char>|
        (p, RequestView::AddCertificate { address, certificate: pki[p], expired_at: None })
}

/// The request that removes the certificate last acknowledged for a path.
pub open spec fn removal(
    address: SocketAddress,
    current: Map<Seq<char>, MetadataView>,
) -> spec_fn(Seq<char>) -> (Seq<char>, RequestView) {
    |p: Seq<char>|
        (p, RequestView::RemoveCertificate { address, fingerprint: hex(current[p].fingerprint) })
}

/// The request that replaces the certificate last acknowledged for a path
/// with the bundle now loaded from it.
pub open spec fn replacement(
    address: SocketAddress,
    current: Map<Seq<char>, MetadataView>,
    pki: Map<Seq<char>, CertificateAndKeyView>,
) -> spec_fn(Seq<char>) -> (Seq<char>, RequestView) {
    |p: Seq<char>|
        (
            p,
            RequestView::ReplaceCertificate {
                address,
                new_certificate: pki[p],
                old_fingerprint: hex(current[p].fingerprint),
                new_expired_at: None,
            },
        )
}

/// One request for each path of the diff: the additions, then the removals,
/// then the replacements.
pub open spec fn request_list(
    address: SocketAddress,
    current: Listing<MetadataView>,
    new: Listing<MetadataView>,
    pki: Map<Seq<char>, CertificateAndKeyView>,
) -> Seq<(Seq<char>, RequestView)> {
    added_order(current, new).map_values(addition(address, pki)) + deleted_order(
        current,
        new,
    ).map_values(removal(address, current.map)) + modified_order(current, new).map_values(
        replacement(address, current.map, pki),
    )
}

/// The paths whose request carries a bundle: the added, then the modified.
pub open spec fn needing_bundle(current: Listing<MetadataView>, new: Listing<MetadataView>) -> Seq<
    Seq<char>,
> {
    added_order(current, new) + modified_order(current, new)
}

/// Every path of `paths` has a bundle.
pub open spec fn all_backed(paths: Seq<Seq<char>>, pki: Map<Seq<char>, CertificateAndKeyView>) -> bool {
    forall|i: int| 0 <= i < paths.len() ==> pki.contains_key(#[trigger] paths[i])
}

/// `path` is the first of `paths` without a bundle.
pub open spec fn first_unbacked(
    paths: Seq<Seq<char>>,
    pki: Map<Seq<char>, CertificateAndKeyView>,
    path: Seq<char>,
) -> bool {
    exists|i: int|
        0 <= i < paths.len() && #[trigger] paths[i] == path && !pki.contains_key(path)
            && all_backed(paths.take(i), pki)
}

/// Keeping some of a list of one path keeps the path or nothing.
pub proof fn lemma_filter_one(path: Seq<char>, keep: spec_fn(Seq<char>) -> bool)
    ensures
        seq![path].filter(keep) == if keep(path) {
            seq![path]
        } else {
            Seq::<Seq<char>>::empty()
        },
{
    reveal(Seq::filter);
    let none = Seq::<Seq<char>>::empty();
    assert(seq![path].drop_last() =~= none);
    assert(none.filter(keep) =~= none);
    assert(none.push(path) =~= seq![path]);
}

/// Where one path is known and scanned again with another summary, and no
/// other path is known or scanned, the one request is its replacement.
pub proof fn lemma_lone_replacement(
    address: SocketAddress,
    current: Listing<MetadataView>,
    new: Listing<MetadataView>,
    pki: Map<Seq<char>, CertificateAndKeyView>,
    path: Seq<char>,
)
    requires
        current.valid(),
        new.valid(),
        current.paths == seq![path],
        new.paths == seq![path],
        current.map[path] != new.map[path],
    ensures
        request_list(address, current, new, pki) == seq![
            replacement(address, current.map, pki)(path),
        ],
{
    assert(current.paths[0] == path && new.paths[0] == path);
    assert(current.paths.to_set().contains(path));
    assert(new.paths.to_set().contains(path));
    lemma_filter_one(path, diff::absent_from(current.map));
    lemma_filter_one(path, diff::absent_from(new.map));
    lemma_filter_one(path, diff::changed_in(current.map, new.map));
    assert(request_list(address, current, new, pki) =~= seq![
        replacement(address, current.map, pki)(path),
    ]);
}

/// Where one path is scanned and none is known, the one request is its
/// addition.
pub proof fn lemma_lone_addition(
    address: SocketAddress,
    current: Listing<MetadataView>,
    new: Listing<MetadataView>,
    pki: Map<Seq<char>, CertificateAndKeyView>,
    path: Seq<char>,
)
    requires
        current == Listing::<MetadataView>::empty(),
        new.valid(),
        new.paths == seq![path],
    ensures
        request_list(address, current, new, pki) == seq![addition(address, pki)(path)],
{
    reveal(Seq::filter);
    lemma_filter_one(path, diff::absent_from(current.map));
    assert(request_list(address, current, new, pki) =~= seq![addition(address, pki)(path)]);
}

/// Where one path is known and none is scanned, the one request is its
/// removal.
pub proof fn lemma_lone_removal(
    address: SocketAddress,
    current: Listing<MetadataView>,
    new: Listing<MetadataView>,
    pki: Map<Seq<char>, CertificateAndKeyView>,
    path: Seq<char>,
)
    requires
        current.valid(),
        current.paths == seq![path],
        new == Listing::<MetadataView>::empty(),
    ensures
        request_list(address, current, new, pki) == seq![removal(address, current.map)(path)],
{
    reveal(Seq::filter);
    assert(current.paths[0] == path);
    assert(current.paths.to_set().contains(path));
    lemma_filter_one(path, diff::absent_from(new.map));
    lemma_filter_one(path, diff::changed_in(current.map, new.map));
    assert(request_list(address, current, new, pki) =~= seq![removal(address, current.map)(path)]);
}

// -------------------------------------------------------------------------------------
// Helpers

/// Builds the requests that turn `current` into `new`, with the bundles of
/// `pki` as payloads. Fails on the first added or modified path, in that
/// order, for which no bundle was loaded.
pub fn create(
    https_listener: SocketAddress,
    current: &PathMap<Metadata>,
    new: &PathMap<Metadata>,
    pki: &PathMap<CertificateAndKey>,
) -> (requests: Result<Vec<(String, RequestType)>, Error>)
    ensures
        match requests {
            Ok(list) => {
                &&& all_backed(needing_bundle(current@, new@), pki@.map)
                &&& listed(list@) == request_list(https_listener, current@, new@, pki@.map)
            },
            Err(Error::NoPKIAt(path)) => first_unbacked(
                needing_bundle(current@, new@),
                pki@.map,
                path@,
            ),
            Err(Error::NoMetadataFor(_)) => false,
        },
{
    proof {
        use_type_invariant(current);
        use_type_invariant(new);
        current.lemma_well_formed();
        new.lemma_well_formed();
    }
    let diff = diff::create(current, new);
    let ghost added = added_order(current@, new@);
    let ghost deleted = deleted_order(current@, new@);
    let ghost modified = modified_order(current@, new@);
    let ghost adding = addition(https_listener, pki@.map);
    let ghost removing = removal(https_listener, current@.map);
    let ghost replacing = replacement(https_listener, current@.map, pki@.map);

    // ---------------------------------------------------------------------------------
    // Create messages to add new certificates
    let mut acc: Vec<(String, RequestType)> = Vec::new();
    let mut i: usize = 0;
    while i < diff.added.len()
        invariant
            i <= diff.added.len(),
            current@.valid(),
            new@.valid(),
            diff.added.len() == added.len(),
            diff.added.deep_view() == added,
            added == added_order(current@, new@),
            adding == addition(https_listener, pki@.map),
            all_backed(added.take(i as int), pki@.map),
            listed(acc@) =~= added.take(i as int).map_values(adding),
        decreases diff.added.len() - i,
    {
        let path = diff.added[i].clone();
        let certificate = match pki.get(&path) {
            Some(bundle) => bundle.clone(),
            None => {
                proof {
                    assert(needing_bundle(current@, new@).take(i as int) =~= added.take(i as int));
                    assert(needing_bundle(current@, new@)[i as int] == path@);
                }
                return Err(Error::NoPKIAt(path));
            },
        };
        let ghost request = adding(path@);
        acc.push(
            (
                path,
                RequestType::AddCertificate(
                    AddCertificate { address: https_listener, certificate, expired_at: None },
                ),
            ),
        );
        proof {
            assert(added.take(i + 1).map_values(adding) =~= added.take(i as int).map_values(
                adding,
            ).push(request));
        }
        i += 1;
    }
    assert(added.take(diff.added.len() as int) =~= added);

    // ---------------------------------------------------------------------------------
    // Create messages to delete old certificates
    proof {
        diff::lemma_filter_distinct(current@.paths, diff::absent_from(new@.map));
        diff::lemma_filter_distinct(current@.paths, diff::changed_in(current@.map, new@.map));
    }
    let mut j: usize = 0;
    while j < diff.deleted.len()
        invariant
            j <= diff.deleted.len(),
            current@.valid(),
            new@.valid(),
            diff.deleted.len() == deleted.len(),
            diff.deleted.deep_view() == deleted,
            removing == removal(https_listener, current@.map),
            forall|k: int| 0 <= k < deleted.len() ==> current@.map.contains_key(#[trigger] deleted[k]),
            listed(acc@) =~= added.map_values(adding) + deleted.take(j as int).map_values(removing),
        decreases diff.deleted.len() - j,
    {
        let path = diff.deleted[j].clone();
        let metadata = match current.get(&path) {
            Some(metadata) => metadata,
            None => {
                assert(current@.map.contains_key(deleted[j as int]));
                return Err(Error::NoMetadataFor(path));
            },
        };
        let fingerprint = fingerprint_text(&metadata.fingerprint);
        let ghost before = listed(acc@);
        let ghost request = removing(path@);
        acc.push(
            (
                path,
                RequestType::RemoveCertificate(
                    RemoveCertificate { address: https_listener, fingerprint },
                ),
            ),
        );
        proof {
            assert(listed(acc@) =~= before.push(request));
        }
        j += 1;
    }

    // ---------------------------------------------------------------------------------
    // Create messages to replace modified certificates
    let mut k: usize = 0;
    while k < diff.modified.len()
        invariant
            k <= diff.modified.len(),
            current@.valid(),
            new@.valid(),
            diff.modified.len() == modified.len(),
            diff.modified.deep_view() == modified,
            replacing == replacement(https_listener, current@.map, pki@.map),
            forall|n: int|
                0 <= n < modified.len() ==> current@.map.contains_key(#[trigger] modified[n]),
            all_backed(added, pki@.map),
            all_backed(modified.take(k as int), pki@.map),
            needing_bundle(current@, new@) == added + modified,
            listed(acc@) =~= added.map_values(adding) + deleted.map_values(removing)
                + modified.take(k as int).map_values(replacing),
        decreases diff.modified.len() - k,
    {
        let path = diff.modified[k].clone();
        let metadata = match current.get(&path) {
            Some(metadata) => metadata,
            None => {
                assert(current@.map.contains_key(modified[k as int]));
                return Err(Error::NoMetadataFor(path));
            },
        };
        let new_certificate = match pki.get(&path) {
            Some(bundle) => bundle.clone(),
            None => {
                proof {
                    let needing = needing_bundle(current@, new@);
                    let at = added.len() + k;
                    assert(needing[at] == path@);
                    assert(needing.take(at) =~= added + modified.take(k as int));
                }
                return Err(Error::NoPKIAt(path));
            },
        };
        let old_fingerprint = fingerprint_text(&metadata.fingerprint);
        let ghost before = listed(acc@);
        let ghost request = replacing(path@);
        acc.push(
            (
                path,
                RequestType::ReplaceCertificate(
                    ReplaceCertificate {
                        address: https_listener,
                        new_certificate,
                        old_fingerprint,
                        new_expired_at: None,
                    },
                ),
            ),
        );
        proof {
            assert(listed(acc@) =~= before.push(request));
        }
        k += 1;
    }
    assert(modified.take(diff.modified.len() as int) =~= modified);

    Ok(acc)
}

} // verus!
