//! Helpers around the management of certificates.

use crate::svc::certificates::bundle::{CertificateAndKey, CertificateAndKeyView};
use crate::svc::certificates::parse::{
    chain_certificates, decode_pem, fingerprint_of, json_versions, pem_contents, pem_fingerprint,
    split_chain, subject_names, versions_from_json, x509_names,
};
use crate::svc::certificates::pathmap::{Listing, PathMap};
use crate::svc::certificates::sets::{copy_digests, copy_texts, same_bytes, same_digests, same_texts};
use vstd::prelude::*;
use vstd::std_specs::cmp::PartialEqSpecImpl;

pub mod bundle;
pub mod diff;
pub mod message;
pub mod parse;
pub mod pathmap;
pub mod sets;
pub mod watcher;

verus! {

// -------------------------------------------------------------------------------------
// Error

/// Why a bundle could not be loaded or summarised.
#[derive(Debug)]
pub enum Error {
    /// The bundle's path has no final component to name its files after.
    DirectoryName(String),
    /// A file of the bundle could not be read: its path, then the cause.
    Read(String, String),
    /// The leaf certificate is no PEM block.
    ParsePem(sozu_command_lib::certificate::CertificateError),
    /// The leaf certificate's contents are no X.509 certificate.
    ParseX509(sozu_command_lib::certificate::CertificateError),
    /// A certificate could not be fingerprinted.
    Fingerprint(sozu_command_lib::certificate::CertificateError),
}

/// An [`Error`] without what the certificate routines said of it.
pub enum ErrorView {
    DirectoryName(Seq<char>),
    Read(Seq<char>, Seq<char>),
    ParsePem,
    ParseX509,
    Fingerprint,
}

impl View for Error {
    type V = ErrorView;

    open spec fn view(&self) -> ErrorView {
        match self {
            Error::DirectoryName(path) => ErrorView::DirectoryName(path@),
            Error::Read(path, cause) => ErrorView::Read(path@, cause@),
            Error::ParsePem(_) => ErrorView::ParsePem,
            Error::ParseX509(_) => ErrorView::ParseX509,
            Error::Fingerprint(_) => ErrorView::Fingerprint,
        }
    }
}

// -------------------------------------------------------------------------------------
// Metadata

/// What is compared between two rounds to tell whether a bundle changed.
#[derive(Debug)]
pub struct Metadata {
    /// Digest of the leaf certificate.
    pub fingerprint: Vec<u8>,
    /// Subject names of the leaf certificate; order and repetition carry no
    /// meaning.
    pub names: Vec<String>,
    /// Where the bundle was loaded from.
    pub path: String,
    /// Digests of the chain certificates; order and repetition carry no
    /// meaning.
    pub chain_fingerprints: Vec<Vec<u8>>,
}

/// A [`Metadata`] as the value it stands for: names and chain fingerprints
/// are sets.
pub struct MetadataView {
    pub fingerprint: Seq<u8>,
    pub names: Set<Seq<char>>,
    pub path: Seq<char>,
    pub chain_fingerprints: Set<Seq<u8>>,
}

impl View for Metadata {
    type V = MetadataView;

    open spec fn view(&self) -> MetadataView {
        MetadataView {
            fingerprint: self.fingerprint@,
            names: self.names.deep_view().to_set(),
            path: self.path@,
            chain_fingerprints: self.chain_fingerprints.deep_view().to_set(),
        }
    }
}

impl Eq for Metadata {

}

impl Metadata {
    /// A summary made of its four parts.
    pub fn new(
        path: String,
        fingerprint: Vec<u8>,
        names: Vec<String>,
        chain_fingerprints: Vec<Vec<u8>>,
    ) -> (metadata: Self)
        ensures
            metadata.path == path,
            metadata.fingerprint == fingerprint,
            metadata.names == names,
            metadata.chain_fingerprints == chain_fingerprints,
    {
        Self { path, names, fingerprint, chain_fingerprints }
    }
}

impl Clone for Metadata {
    fn clone(&self) -> (copy: Self)
        ensures
            copy@ == self@,
    {
        let fingerprint = self.fingerprint.clone();
        Metadata {
            fingerprint,
            names: copy_texts(&self.names),
            path: self.path.clone(),
            chain_fingerprints: copy_digests(&self.chain_fingerprints),
        }
    }
}

impl PartialEq for Metadata {
    /// Two summaries are equal when all four fields are, names and chain
    /// fingerprints compared as sets.
    fn eq(&self, other: &Self) -> (same: bool) {
        same_bytes(&self.fingerprint, &other.fingerprint) && same_texts(&self.names, &other.names)
            && self.path == other.path && same_digests(
            &self.chain_fingerprints,
            &other.chain_fingerprints,
        )
    }
}

impl PartialEqSpecImpl for Metadata {
    open spec fn obeys_eq_spec() -> bool {
        true
    }

    open spec fn eq_spec(&self, other: &Self) -> bool {
        self@ == other@
    }
}

// -------------------------------------------------------------------------------------
// What is read from disk

/// A file as it was found: its path, and its text or why it could not be
/// read.
#[derive(Debug)]
pub struct File {
    pub path: String,
    pub content: Result<String, String>,
}

/// The files of one bundle directory.
#[derive(Debug)]
pub struct BundleFiles {
    /// `<name>.crt`: the leaf certificate, then its chain.
    pub certificates: File,
    /// `<name>.key`: the private key.
    pub key: File,
    /// `options.json`, where the directory has one.
    pub options: Option<File>,
}

/// A directory below the root.
#[derive(Debug)]
pub struct Directory {
    pub path: String,
    /// The bundle's files; `None` where the path has no final component to
    /// name them after.
    pub files: Option<BundleFiles>,
}

/// An entry of the root directory.
#[derive(Debug)]
pub enum Entry {
    Directory(Directory),
    /// The path of an entry that is no directory.
    Other(String),
}

/// The names of the files that make up the bundle of a directory.
#[derive(Debug)]
pub struct FileNames {
    pub certificates: String,
    pub key: String,
    pub options: String,
}

/// Why an entry of the root directory gave no bundle.
#[derive(Debug)]
pub enum Skip {
    NotADirectory,
    /// The certificate file holds no certificate.
    NoCertificate,
    Failed(Error),
}

/// A [`Skip`] as the value it stands for.
pub enum SkipView {
    NotADirectory,
    NoCertificate,
    Failed(ErrorView),
}

impl View for Skip {
    type V = SkipView;

    open spec fn view(&self) -> SkipView {
        match self {
            Skip::NotADirectory => SkipView::NotADirectory,
            Skip::NoCertificate => SkipView::NoCertificate,
            Skip::Failed(error) => SkipView::Failed(error@),
        }
    }
}

/// What loading one directory gave.
#[derive(Debug)]
pub struct Reading {
    /// The bundle, nothing, or why the directory gave none.
    pub bundle: Result<Option<CertificateAndKey>, Error>,
    /// Whether the directory's options file was read and passed over because
    /// it holds no list of versions.
    pub options_ignored: bool,
}

/// What a scan of the root directory gave.
#[derive(Debug)]
pub struct Found {
    /// The bundles that loaded, by the path of their directory.
    pub bundles: PathMap<CertificateAndKey>,
    /// The entries that were passed over, in the order of the scan.
    pub skipped: Vec<(String, Skip)>,
    /// The directories whose options file was passed over because it holds
    /// no list of versions, in the order of the scan.
    pub ignored_options: Vec<String>,
}

/// The versions that an options file grants: what it lists, or nothing where
/// it is absent or is no list of integers.
pub open spec fn granted_versions(options: Option<File>) -> Seq<i32> {
    match options {
        Some(File { content: Ok(text), .. }) => match json_versions(text@) {
            Some(versions) => versions,
            None => Seq::empty(),
        },
        _ => Seq::empty(),
    }
}

/// The bundle that a certificate file, a key and the granted versions make,
/// or why the leaf certificate is refused.
pub open spec fn assembled(certificates: Seq<Seq<char>>, key: Seq<char>, versions: Seq<i32>) -> Result<
    Option<CertificateAndKeyView>,
    ErrorView,
> {
    match pem_contents(certificates[0]) {
        None => Err(ErrorView::ParsePem),
        Some(der) => match x509_names(der) {
            None => Err(ErrorView::ParseX509),
            Some(names) => Ok(
                Some(
                    CertificateAndKeyView {
                        certificate: certificates[0],
                        certificate_chain: certificates.skip(1),
                        key,
                        versions,
                        names,
                    },
                ),
            ),
        },
    }
}

/// What a directory gives: a bundle, nothing where its certificate file
/// holds no certificate, or the first thing that went wrong.
pub open spec fn loaded(directory: Directory) -> Result<Option<CertificateAndKeyView>, ErrorView> {
    match directory.files {
        None => Err(ErrorView::DirectoryName(directory.path@)),
        Some(files) => match files.certificates.content {
            Err(cause) => Err(ErrorView::Read(files.certificates.path@, cause@)),
            Ok(text) => if chain_certificates(text@).len() == 0 {
                Ok(None)
            } else {
                match files.key.content {
                    Err(cause) => Err(ErrorView::Read(files.key.path@, cause@)),
                    Ok(key) => match files.options {
                        Some(File { path, content: Err(cause) }) => Err(
                            ErrorView::Read(path@, cause@),
                        ),
                        _ => assembled(
                            chain_certificates(text@),
                            key@,
                            granted_versions(files.options),
                        ),
                    },
                }
            },
        },
    }
}

/// The options file of a directory is read and holds no list of versions:
/// the certificate file holds a certificate, the key is there, and the
/// options' text is not what is asked for.
pub open spec fn options_ignored(directory: Directory) -> bool {
    match directory.files {
        Some(files) => match (files.certificates.content, files.key.content, files.options) {
            (Ok(text), Ok(_), Some(File { content: Ok(options), .. })) => {
                chain_certificates(text@).len() > 0 && json_versions(options@) is None
            },
            _ => false,
        },
        None => false,
    }
}

/// What loading a directory gave, as the value it stands for.
pub open spec fn outcome(bundle: Result<Option<CertificateAndKey>, Error>) -> Result<
    Option<CertificateAndKeyView>,
    ErrorView,
> {
    match bundle {
        Ok(Some(certificate_and_key)) => Ok(Some(certificate_and_key@)),
        Ok(None) => Ok(None),
        Err(error) => Err(error@),
    }
}

/// The bundles of a scan: each directory that loads is filed under its path.
pub open spec fn found_bundles(entries: Seq<Entry>) -> Listing<CertificateAndKeyView>
    decreases entries.len(),
{
    if entries.len() == 0 {
        Listing::empty()
    } else {
        let before = found_bundles(entries.drop_last());
        match entries.last() {
            Entry::Directory(directory) => match loaded(directory) {
                Ok(Some(bundle)) => before.insert(directory.path@, bundle),
                _ => before,
            },
            Entry::Other(_) => before,
        }
    }
}

/// The entries that a scan passes over, each with the reason.
pub open spec fn found_skipped(entries: Seq<Entry>) -> Seq<(Seq<char>, SkipView)>
    decreases entries.len(),
{
    if entries.len() == 0 {
        Seq::empty()
    } else {
        let before = found_skipped(entries.drop_last());
        match entries.last() {
            Entry::Directory(directory) => match loaded(directory) {
                Ok(Some(_)) => before,
                Ok(None) => before.push((directory.path@, SkipView::NoCertificate)),
                Err(error) => before.push((directory.path@, SkipView::Failed(error))),
            },
            Entry::Other(path) => before.push((path@, SkipView::NotADirectory)),
        }
    }
}

/// The directories of a scan whose options file is passed over.
pub open spec fn found_ignored(entries: Seq<Entry>) -> Seq<Seq<char>>
    decreases entries.len(),
{
    if entries.len() == 0 {
        Seq::empty()
    } else {
        let before = found_ignored(entries.drop_last());
        match entries.last() {
            Entry::Directory(directory) => if options_ignored(directory) {
                before.push(directory.path@)
            } else {
                before
            },
            Entry::Other(_) => before,
        }
    }
}

/// A list of skips as the values they stand for.
pub open spec fn skips(skipped: Seq<(String, Skip)>) -> Seq<(Seq<char>, SkipView)> {
    skipped.map_values(|s: (String, Skip)| (s.0@, s.1@))
}

// -------------------------------------------------------------------------------------
// What a bundle is summarised to

/// The digest of a PEM text that has one.
pub open spec fn digest_of() -> spec_fn(Seq<char>) -> Seq<u8> {
    |certificate: Seq<char>| pem_fingerprint(certificate)->0
}

/// The subject names of a certificate given as PEM text, where it has a
/// readable X.509 structure.
pub open spec fn leaf_names(certificate: Seq<char>) -> Option<Seq<Seq<char>>> {
    match pem_contents(certificate) {
        Some(der) => x509_names(der),
        None => None,
    }
}

/// The leaf certificate and every chain certificate have a digest.
pub open spec fn digestible(bundle: CertificateAndKeyView) -> bool {
    &&& pem_fingerprint(bundle.certificate) is Some
    &&& forall|i: int|
        0 <= i < bundle.certificate_chain.len() ==> pem_fingerprint(
            #[trigger] bundle.certificate_chain[i],
        ) is Some
}

/// Every certificate has a digest, and the leaf has readable names.
pub open spec fn summarisable(bundle: CertificateAndKeyView) -> bool {
    digestible(bundle) && leaf_names(bundle.certificate) is Some
}

/// The summary of a bundle loaded from `path`.
pub open spec fn summary(path: Seq<char>, bundle: CertificateAndKeyView) -> MetadataView {
    MetadataView {
        fingerprint: pem_fingerprint(bundle.certificate)->0,
        names: leaf_names(bundle.certificate)->0.to_set(),
        path,
        chain_fingerprints: bundle.certificate_chain.map_values(digest_of()).to_set(),
    }
}

/// Why a bundle that is not summarisable is refused. A missing digest, of
/// the leaf or of any chain certificate, comes before anything else; only
/// where every digest is there is the leaf refused for its unreadable names.
pub open spec fn refusal(bundle: CertificateAndKeyView) -> ErrorView {
    if digestible(bundle) {
        ErrorView::ParseX509
    } else {
        ErrorView::Fingerprint
    }
}

// -------------------------------------------------------------------------------------
// Helpers

/// The names of the files that a bundle directory called `name` is read
/// from.
pub fn file_names(name: &str) -> (names: FileNames)
    ensures
        names.certificates@ == name@ + ".crt"@,
        names.key@ == name@ + ".key"@,
        names.options@ == "options.json"@,
{
    FileNames {
        certificates: name.to_owned().concat(".crt"),
        key: name.to_owned().concat(".key"),
        options: "options.json".to_owned(),
    }
}

/// Loads the bundles of a scanned root directory. An entry that is no
/// directory, or a directory that gives no bundle, is passed over and
/// listed with the reason. A directory whose options file holds no list of
/// versions is listed too, whether or not it gives a bundle.
pub fn find(entries: &Vec<Entry>) -> (found: Found)
    ensures
        found.bundles@ == found_bundles(entries@),
        found.bundles@.valid(),
        skips(found.skipped@) == found_skipped(entries@),
        found.ignored_options.deep_view() == found_ignored(entries@),
{
    let mut bundles: PathMap<CertificateAndKey> = PathMap::new();
    let mut skipped: Vec<(String, Skip)> = Vec::new();
    let mut ignored_options: Vec<String> = Vec::new();
    let mut i: usize = 0;
    assert(ignored_options.deep_view() =~= found_ignored(entries@.take(0)));
    while i < entries.len()
        invariant
            i <= entries.len(),
            bundles@ == found_bundles(entries@.take(i as int)),
            bundles@.valid(),
            skips(skipped@) == found_skipped(entries@.take(i as int)),
            ignored_options.deep_view() == found_ignored(entries@.take(i as int)),
        decreases entries.len() - i,
    {
        proof {
            assert(entries@.take(i + 1).drop_last() =~= entries@.take(i as int));
        }
        let ghost ignored_before = ignored_options.deep_view();
        match &entries[i] {
            Entry::Directory(directory) => {
                let reading = load(directory);
                if reading.options_ignored {
                    ignored_options.push(directory.path.clone());
                    assert(ignored_options.deep_view() =~= ignored_before.push(directory.path@));
                }
                match reading.bundle {
                    Ok(Some(certificate_and_key)) => {
                        bundles.insert(directory.path.clone(), certificate_and_key);
                    },
                    Ok(None) => {
                        skipped.push((directory.path.clone(), Skip::NoCertificate));
                    },
                    Err(error) => {
                        skipped.push((directory.path.clone(), Skip::Failed(error)));
                    },
                }
            },
            Entry::Other(path) => {
                skipped.push((path.clone(), Skip::NotADirectory));
            },
        }
        i += 1;
    }
    assert(entries@.take(entries.len() as int) =~= entries@);
    Found { bundles, skipped, ignored_options }
}

/// Loads the bundle of one directory: splits the certificate file into leaf
/// and chain, reads the granted TLS versions and the leaf's names.
pub fn read(directory: &Directory) -> (bundle: Result<Option<CertificateAndKey>, Error>)
    ensures
        outcome(bundle) == loaded(*directory),
{
    load(directory).bundle
}

/// Loads the bundle of one directory as [`read`] does, and says whether the
/// options file was passed over on the way.
pub fn load(directory: &Directory) -> (reading: Reading)
    ensures
        outcome(reading.bundle) == loaded(*directory),
        reading.options_ignored == options_ignored(*directory),
{
    // ---------------------------------------------------------------------------------
    // Retrieve the files of the directory
    let files = match &directory.files {
        Some(files) => files,
        None => {
            return Reading {
                bundle: Err(Error::DirectoryName(directory.path.clone())),
                options_ignored: false,
            };
        },
    };

    // ---------------------------------------------------------------------------------
    // Load certificates, key and optional options
    let mut certificates = match &files.certificates.content {
        Ok(text) => split_chain(text.clone()),
        Err(cause) => {
            return Reading {
                bundle: Err(Error::Read(files.certificates.path.clone(), cause.clone())),
                options_ignored: false,
            };
        },
    };

    // Skip if there is no certificate
    if certificates.len() == 0 {
        return Reading { bundle: Ok(None), options_ignored: false };
    }
    let ghost all = certificates.deep_view();
    let certificate = certificates.remove(0);
    let certificate_chain = certificates;
    assert(certificate_chain.deep_view() =~= all.skip(1));

    let key = match &files.key.content {
        Ok(key) => key.clone(),
        Err(cause) => {
            return Reading {
                bundle: Err(Error::Read(files.key.path.clone(), cause.clone())),
                options_ignored: false,
            };
        },
    };

    let mut versions: Vec<i32> = Vec::new();
    let mut options_ignored = false;
    match &files.options {
        Some(options) => match &options.content {
            Ok(text) => match versions_from_json(text) {
                Some(granted) => {
                    versions = granted;
                },
                None => {
                    options_ignored = true;
                },
            },
            Err(cause) => {
                return Reading {
                    bundle: Err(Error::Read(options.path.clone(), cause.clone())),
                    options_ignored: false,
                };
            },
        },
        None => {},
    }

    // ---------------------------------------------------------------------------------
    // Parse certificate to retrieve SAN and CN attributes from pem
    let der = match decode_pem(&certificate) {
        Ok(der) => der,
        Err(err) => {
            return Reading { bundle: Err(Error::ParsePem(err)), options_ignored };
        },
    };
    let names = match subject_names(&der) {
        Ok(names) => names,
        Err(err) => {
            return Reading { bundle: Err(Error::ParseX509(err)), options_ignored };
        },
    };

    Reading {
        bundle: Ok(Some(CertificateAndKey { certificate, certificate_chain, key, versions, names })),
        options_ignored,
    }
}

/// A bundle with a missing digest is refused for that, whatever else is
/// wrong with it.
pub proof fn lemma_missing_digest_is_reported(bundle: CertificateAndKeyView)
    requires
        !digestible(bundle),
    ensures
        !summarisable(bundle),
        refusal(bundle) == ErrorView::Fingerprint,
{
}

/// Summarises a bundle: the digest of its leaf, the digests of its chain,
/// and the names that the leaf's X.509 structure holds. Fails with
/// [`Error::Fingerprint`] where the leaf or a chain certificate has no
/// digest, and with [`Error::ParseX509`] where every digest is there and the
/// leaf's names cannot be read.
pub fn metadata(path: String, certificate_and_key: &CertificateAndKey) -> (summarised: Result<
    Metadata,
    Error,
>)
    ensures
        match summarised {
            Ok(metadata) => summarisable(certificate_and_key@) && metadata@ == summary(
                path@,
                certificate_and_key@,
            ),
            Err(error) => !summarisable(certificate_and_key@) && error@ == refusal(
                certificate_and_key@,
            ),
        },
{
    // ---------------------------------------------------------------------------------
    // Compute fingerprints
    let fingerprint = match fingerprint_of(&certificate_and_key.certificate) {
        Ok(fingerprint) => fingerprint,
        Err(err) => {
            return Err(Error::Fingerprint(err));
        },
    };

    let ghost chain = certificate_and_key@.certificate_chain;
    let mut chain_fingerprints: Vec<Vec<u8>> = Vec::new();
    let mut i: usize = 0;
    while i < certificate_and_key.certificate_chain.len()
        invariant
            i <= certificate_and_key.certificate_chain.len(),
            chain == certificate_and_key.certificate_chain.deep_view(),
            chain == certificate_and_key@.certificate_chain,
            pem_contents(certificate_and_key@.certificate) is Some,
            pem_fingerprint(certificate_and_key@.certificate) == Some(fingerprint@),
            forall|k: int| 0 <= k < i ==> pem_fingerprint(#[trigger] chain[k]) is Some,
            chain_fingerprints.deep_view() == chain.take(i as int).map_values(digest_of()),
        decreases certificate_and_key.certificate_chain.len() - i,
    {
        match fingerprint_of(&certificate_and_key.certificate_chain[i]) {
            Ok(digest) => {
                chain_fingerprints.push(digest);
                proof {
                    crate::svc::certificates::sets::lemma_bytes_deep_view(digest);
                    assert(chain.take(i + 1).map_values(digest_of()) =~= chain.take(
                        i as int,
                    ).map_values(digest_of()).push(digest@));
                }
            },
            Err(err) => {
                assert(pem_fingerprint(chain[i as int]) is None);
                return Err(Error::Fingerprint(err));
            },
        }
        i += 1;
    }
    assert(chain.take(chain.len() as int) =~= chain);

    // ---------------------------------------------------------------------------------
    // Parse certificate to retrieve SAN and CN attributes from pem
    let der = match decode_pem(&certificate_and_key.certificate) {
        Ok(der) => der,
        Err(err) => {
            return Err(Error::ParsePem(err));
        },
    };
    let names = match subject_names(&der) {
        Ok(names) => names,
        Err(err) => {
            return Err(Error::ParseX509(err));
        },
    };

    Ok(Metadata::new(path, fingerprint, names, chain_fingerprints))
}

} // verus!
