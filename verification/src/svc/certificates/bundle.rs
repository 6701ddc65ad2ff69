//! A certificate bundle as it is loaded from one directory.

use crate::svc::certificates::sets::copy_texts;
use vstd::prelude::*;

verus! {

/// A leaf certificate with its chain, its private key, the TLS versions it
/// is offered for and the names it answers to.
#[derive(Debug, PartialEq, Eq)]
pub struct CertificateAndKey {
    /// The leaf certificate, as PEM text.
    pub certificate: String,
    /// The certificates that follow the leaf in the file, as PEM texts.
    pub certificate_chain: Vec<String>,
    /// The private key, as PEM text.
    pub key: String,
    /// The permitted TLS versions, by their protocol numbers; empty when
    /// nothing was configured.
    pub versions: Vec<i32>,
    /// The subject names of the leaf certificate.
    pub names: Vec<String>,
}

/// A [`CertificateAndKey`] as the value it stands for.
pub struct CertificateAndKeyView {
    pub certificate: Seq<char>,
    pub certificate_chain: Seq<Seq<char>>,
    pub key: Seq<char>,
    pub versions: Seq<i32>,
    pub names: Seq<Seq<char>>,
}

impl View for CertificateAndKey {
    type V = CertificateAndKeyView;

    open spec fn view(&self) -> CertificateAndKeyView {
        CertificateAndKeyView {
            certificate: self.certificate@,
            certificate_chain: self.certificate_chain.deep_view(),
            key: self.key@,
            versions: self.versions@,
            names: self.names.deep_view(),
        }
    }
}

impl Clone for CertificateAndKey {
    fn clone(&self) -> (copy: Self)
        ensures
            copy@ == self@,
    {
        let versions = self.versions.clone();
        CertificateAndKey {
            certificate: self.certificate.clone(),
            certificate_chain: copy_texts(&self.certificate_chain),
            key: self.key.clone(),
            versions,
            names: copy_texts(&self.names),
        }
    }
}

} // verus!
