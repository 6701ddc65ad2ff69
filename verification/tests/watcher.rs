use sozu_pki_connector::svc::certificates::bundle::CertificateAndKey;
use sozu_pki_connector::svc::certificates::message::{
    AddCertificate, IpAddress, RemoveCertificate, ReplaceCertificate, RequestType, SocketAddress,
};
use sozu_pki_connector::svc::certificates::pathmap::PathMap;
use sozu_pki_connector::svc::certificates::watcher::{
    kind, Error, Outcome, Recorded, RequestKind, Watcher,
};
use sozu_pki_connector::svc::certificates::{find, BundleFiles, Directory, Entry, File, Metadata};

fn site_a_first() -> &'static str {
    "-----BEGIN CERTIFICATE-----\n\
MIIBujCCAWCgAwIBAgIUPwMnip+K+09aP8jslA1ktx4jm8EwCgYIKoZIzj0EAwIw\n\
GTEXMBUGA1UEAwwOc2l0ZS1hLmV4YW1wbGUwIBcNMjYxMDI4MjExOTAxWhgPMjEy\n\
NjEwMDQyMTE5MDFaMBkxFzAVBgNVBAMMDnNpdGUtYS5leGFtcGxlMFkwEwYHKoZI\n\
zj0CAQYIKoZIzj0DAQcDQgAE9ciZ9OJ253ea0BUXiC1hh4o9Aljs3L7slQBRcqyN\n\
+rWW0JuXeNmqU9YoM7KpVOSBM+UnqSZBjcH9Nibw8YrbXaOBgzCBgDAdBgNVHQ4E\n\
FgQUJFxRnqtzHAfKKbugEVLrwt4JeS0wHwYDVR0jBBgwFoAUJFxRnqtzHAfKKbug\n\
EVLrwt4JeS0wDwYDVR0TAQH/BAUwAwEB/zAtBgNVHREEJjAkgg5zaXRlLWEuZXhh\n\
bXBsZYISd3d3LnNpdGUtYS5leGFtcGxlMAoGCCqGSM49BAMCA0gAMEUCIQCIb51g\n\
y+D7JoOb4QUb9Q+BVPBcYjUm3cXmZOPIIUp4TwIgCZs659+MGb10BqsbAG6Bxp4i\n\
O9oxDxXUqsf6scL4ZxE=\n\
-----END CERTIFICATE-----"
}

fn site_a_second() -> &'static str {
    "-----BEGIN CERTIFICATE-----\n\
MIIBuTCCAWCgAwIBAgIUDJvQD59oh0ilWHUPcqq4lp5By3gwCgYIKoZIzj0EAwIw\n\
GTEXMBUGA1UEAwwOc2l0ZS1hLmV4YW1wbGUwIBcNMjYxMDI4MjExOTAxWhgPMjEy\n\
NjEwMDQyMTE5MDFaMBkxFzAVBgNVBAMMDnNpdGUtYS5leGFtcGxlMFkwEwYHKoZI\n\
zj0CAQYIKoZIzj0DAQcDQgAEQJbbqO/swZq1G2SQZgKrXXLDw4VGJnzlXNCZswv1\n\
i1sezV9bVp2rHsNFC16+e0FuXAcpwIayaPqOhRZMFgwqR6OBgzCBgDAdBgNVHQ4E\n\
FgQUk2joE+7X33p7rB6zI67kFY/57nYwHwYDVR0jBBgwFoAUk2joE+7X33p7rB6z\n\
I67kFY/57nYwDwYDVR0TAQH/BAUwAwEB/zAtBgNVHREEJjAkgg5zaXRlLWEuZXhh\n\
bXBsZYISd3d3LnNpdGUtYS5leGFtcGxlMAoGCCqGSM49BAMCA0cAMEQCIH8u3MZh\n\
rY5SkqC5egKe8KdhcpLbTq7ypRGnDoXxe5WXAiBs0+NmW8lizpZua+Z8O8G9Off6\n\
dzw7Miv1dhAi9prRjA==\n\
-----END CERTIFICATE-----"
}

fn certificate(name: &str) -> &'static str {
    match name {
        "one" => {
            "-----BEGIN CERTIFICATE-----\n\
MIIBrDCCAVKgAwIBAgIUT+V4HIN+Qn6ew8/nIuMEy00yP5UwCgYIKoZIzj0EAwIw\n\
FjEUMBIGA1UEAwwLb25lLmV4YW1wbGUwIBcNMjYxMDI4MjEzNTUwWhgPMjEyNjEw\n\
MDQyMTM1NTBaMBYxFDASBgNVBAMMC29uZS5leGFtcGxlMFkwEwYHKoZIzj0CAQYI\n\
KoZIzj0DAQcDQgAEGWYGeKR3biG/stuJ6J9jcCF+/xQ3P2YCpT88k0/amn9JfC30\n\
oz636Q4AwqKURvoLInUwmI3rpQ9uzIx2nxcKyKN8MHowHQYDVR0OBBYEFJNQ9gE+\n\
aAOfnSpc/S/1u9R9rgDuMB8GA1UdIwQYMBaAFJNQ9gE+aAOfnSpc/S/1u9R9rgDu\n\
MA8GA1UdEwEB/wQFMAMBAf8wJwYDVR0RBCAwHoILb25lLmV4YW1wbGWCD3d3dy5v\n\
bmUuZXhhbXBsZTAKBggqhkjOPQQDAgNIADBFAiB+dGoGw3FgWjN1m87cBcevonLU\n\
3m3zceoY1BauRwaE7AIhAKYVHK4wM5c+Yh30HRV8L1Nw2xHzkdt1D/QMWNiVUFJi\n\
-----END CERTIFICATE-----"
        }
        "two" => {
            "-----BEGIN CERTIFICATE-----\n\
MIIBrDCCAVKgAwIBAgIUIp2FNEvIbLN0bdViaXDBa9rR9U8wCgYIKoZIzj0EAwIw\n\
FjEUMBIGA1UEAwwLdHdvLmV4YW1wbGUwIBcNMjYxMDI4MjEzNTUwWhgPMjEyNjEw\n\
MDQyMTM1NTBaMBYxFDASBgNVBAMMC3R3by5leGFtcGxlMFkwEwYHKoZIzj0CAQYI\n\
KoZIzj0DAQcDQgAEds5X1M77OjWQ/b/3dXJGe05mz0TeyFFhIjuv3N2B78mdR7h5\n\
khYtMIU4NstS7J1A1DScESYi9nf94u1ANuK3+6N8MHowHQYDVR0OBBYEFGoG4s2V\n\
XWxrqFmh3Q3rdf1spNzeMB8GA1UdIwQYMBaAFGoG4s2VXWxrqFmh3Q3rdf1spNze\n\
MA8GA1UdEwEB/wQFMAMBAf8wJwYDVR0RBCAwHoILdHdvLmV4YW1wbGWCD3d3dy50\n\
d28uZXhhbXBsZTAKBggqhkjOPQQDAgNIADBFAiEA861Fj63oi+Ai+8vjjWF3qOkq\n\
F1FWOgzDy6hLHDmqjccCID1d34ZBwGpAJ/D+q59/IC0eZilItu5BTggg8s0dzbZN\n\
-----END CERTIFICATE-----"
        }
        "three" => {
            "-----BEGIN CERTIFICATE-----\n\
MIIBtTCCAVugAwIBAgIUOnZ5xWoKjACJLwG1ADT+fOr9MvUwCgYIKoZIzj0EAwIw\n\
GDEWMBQGA1UEAwwNdGhyZWUuZXhhbXBsZTAgFw0yNjEwMjgyMTM1NTBaGA8yMTI2\n\
MTAwNDIxMzU1MFowGDEWMBQGA1UEAwwNdGhyZWUuZXhhbXBsZTBZMBMGByqGSM49\n\
AgEGCCqGSM49AwEHA0IABOiH8YFNZ5N9zFL+7yPBzLdTO4z4vez5x3SA5bRotVxR\n\
2ja7cK9UJ0xHZV9ivJcsoWoC4LQjFis53QMzSz2l7D2jgYAwfjAdBgNVHQ4EFgQU\n\
TZd3T8opgU0B66E9530/jbm3p1wwHwYDVR0jBBgwFoAUTZd3T8opgU0B66E9530/\n\
jbm3p1wwDwYDVR0TAQH/BAUwAwEB/zArBgNVHREEJDAigg10aHJlZS5leGFtcGxl\n\
ghF3d3cudGhyZWUuZXhhbXBsZTAKBggqhkjOPQQDAgNIADBFAiB05Oz0mFpgYaAe\n\
PwP1+KNngvh6ZQgZvKFYxvsqY39XpwIhAOBHavIxoT+WLJ09wQ6E6YZrTRs8lvM4\n\
H7vQHPZ6p6/5\n\
-----END CERTIFICATE-----"
        }
        "four" => {
            "-----BEGIN CERTIFICATE-----\n\
MIIBrzCCAVagAwIBAgIUfZVvEI3feElmVkVFKgs5/WVbXGAwCgYIKoZIzj0EAwIw\n\
FzEVMBMGA1UEAwwMZm91ci5leGFtcGxlMCAXDTI2MTAyODIxMzU1MFoYDzIxMjYx\n\
MDA0MjEzNTUwWjAXMRUwEwYDVQQDDAxmb3VyLmV4YW1wbGUwWTATBgcqhkjOPQIB\n\
BggqhkjOPQMBBwNCAAQHUa1fthOIxrFlb0zalUHAmb01lMl0yb3HbkFDKKzQBY08\n\
jE4t0++S6p3+pmfdWUbB/zKGoesCALVlKJnI9f33o34wfDAdBgNVHQ4EFgQUE0Gm\n\
M+fZ9sUv3EOyY5kQLl6YGX8wHwYDVR0jBBgwFoAUE0GmM+fZ9sUv3EOyY5kQLl6Y\n\
GX8wDwYDVR0TAQH/BAUwAwEB/zApBgNVHREEIjAgggxmb3VyLmV4YW1wbGWCEHd3\n\
dy5mb3VyLmV4YW1wbGUwCgYIKoZIzj0EAwIDRwAwRAIgJAy+1dK81txZDeJJVigz\n\
di3e1SZX3wV8ClAHM3NCn4ACICbPEpW6m9hUTCJuDUo58MT52a7jmIib+qVijN84\n\
Kxod\n\
-----END CERTIFICATE-----"
        }
        "five" => {
            "-----BEGIN CERTIFICATE-----\n\
MIIBsDCCAVagAwIBAgIUApCivpBBNmuT788Gj3Y8r501jJswCgYIKoZIzj0EAwIw\n\
FzEVMBMGA1UEAwwMZml2ZS5leGFtcGxlMCAXDTI2MTAyODIxMzU1MFoYDzIxMjYx\n\
MDA0MjEzNTUwWjAXMRUwEwYDVQQDDAxmaXZlLmV4YW1wbGUwWTATBgcqhkjOPQIB\n\
BggqhkjOPQMBBwNCAAR4xtQDQ6knjK/Df8PKf7cUK2hLBELrN07K3bthqw9v4ORZ\n\
Fiy3jIwsQS3VgaRpsFLQzFgc6qbsilsX7oM94wLPo34wfDAdBgNVHQ4EFgQUope3\n\
x3iPkujR+6wbODN3yyq2Z1AwHwYDVR0jBBgwFoAUope3x3iPkujR+6wbODN3yyq2\n\
Z1AwDwYDVR0TAQH/BAUwAwEB/zApBgNVHREEIjAgggxmaXZlLmV4YW1wbGWCEHd3\n\
dy5maXZlLmV4YW1wbGUwCgYIKoZIzj0EAwIDSAAwRQIhAIIiAtA6puyOn2RftkLB\n\
yddooVZ+TviX4qlkztiBFlgBAiBv88q0ZAuOr4nULDa3I/s4MbIufExTW8nS/cn+\n\
aRYSnw==\n\
-----END CERTIFICATE-----"
        }
        "six" => {
            "-----BEGIN CERTIFICATE-----\n\
MIIBqzCCAVKgAwIBAgIUQUmTeYF2fCy1m9f2+pTLX6AnOiowCgYIKoZIzj0EAwIw\n\
FjEUMBIGA1UEAwwLc2l4LmV4YW1wbGUwIBcNMjYxMDI4MjEzNTUwWhgPMjEyNjEw\n\
MDQyMTM1NTBaMBYxFDASBgNVBAMMC3NpeC5leGFtcGxlMFkwEwYHKoZIzj0CAQYI\n\
KoZIzj0DAQcDQgAERf09juYAXKpkIQl/U4r0KkglCnm3XTGi6+1HUUiF1DZklzxf\n\
qLf4QlM5W/THZ44YwRKigrsRqa5KkP1cpwzFmKN8MHowHQYDVR0OBBYEFJpaUlzE\n\
iYhdasPYg2qKWXIKwFEbMB8GA1UdIwQYMBaAFJpaUlzEiYhdasPYg2qKWXIKwFEb\n\
MA8GA1UdEwEB/wQFMAMBAf8wJwYDVR0RBCAwHoILc2l4LmV4YW1wbGWCD3d3dy5z\n\
aXguZXhhbXBsZTAKBggqhkjOPQQDAgNHADBEAiBNJJm/XcwCSiLHU+/tKKtbLq76\n\
4Fz6oK0idVcpCUCLhAIgeWwCXjb5AusD+8HL5ug5aKU2WbBbpL8aH1HAzn7rMK4=\n\
-----END CERTIFICATE-----"
        }
        other => panic!("no certificate called {}", other),
    }
}

fn digest(name: &str) -> &'static str {
    match name {
        "one" => "c66fbf55f02032fcab3b53f9b2ba6a69c69147b784a8437f7775625590626ac3",
        "two" => "6b9575b11557f6012d97e313ffc96b93ef45329a4f1aab0d4092e7449815f03a",
        "three" => "40e2ca8ea82fe0d382d16b56228e4befd3a5e0e25b8a1411d099e5eea0603fdc",
        "four" => "d68f94a5912d677cf549a61b8984aa30d8a64b8835fc11f32f706a287cfc2f7e",
        "five" => "ab79c7b2ecd63b7526a19877cb29952afd2e2e36fd75d36d5e2e9740900d28e7",
        "six" => "ea8786432bb889254fb852ff7461de3e872938791ecfd590017fcc8f534a1834",
        other => panic!("no certificate called {}", other),
    }
}

fn bundle(name: &str) -> CertificateAndKey {
    CertificateAndKey {
        certificate: certificate(name).to_string(),
        certificate_chain: vec![],
        key: format!("key of {}", name),
        versions: vec![4, 5],
        names: vec![format!("{}.example", name), format!("www.{}.example", name)],
    }
}

fn listener() -> SocketAddress {
    SocketAddress { ip: IpAddress::V4(0x7f00_0001), port: 8443 }
}

fn unhex(text: &str) -> Vec<u8> {
    (0..text.len() / 2).map(|i| u8::from_str_radix(&text[2 * i..2 * i + 2], 16).unwrap()).collect()
}

fn scan(entries: Vec<(&str, &str)>) -> PathMap<CertificateAndKey> {
    let mut pki = PathMap::new();
    for (path, payload) in entries {
        pki.insert(path.to_string(), bundle(payload));
    }
    pki
}

fn watcher() -> Watcher {
    Watcher::new("/pki".to_string(), listener())
}

/// Answers every request of the round in flight with what `answer` says of
/// its position, and returns the requests that were shown.
fn drive(watcher: &mut Watcher, answer: &dyn Fn(usize) -> Outcome) -> Vec<(String, RequestType)> {
    let mut shown = Vec::new();
    loop {
        let next = match watcher.next_request() {
            Some((path, request)) => (path.clone(), request.clone()),
            None => break,
        };
        let outcome = answer(shown.len());
        shown.push(next);
        if watcher.record(outcome).is_err() {
            break;
        }
    }
    shown
}

fn state(watcher: &Watcher) -> Vec<(String, Vec<u8>)> {
    let mut listed = Vec::new();
    let mut i = 0;
    while let Some((path, metadata)) = watcher.metadata().entry(i) {
        listed.push((path.clone(), metadata.fingerprint.clone()));
        i += 1;
    }
    listed
}

fn digest_one() -> Vec<u8> {
    unhex(digest("one"))
}

fn digest_two() -> Vec<u8> {
    unhex(digest("two"))
}

fn digest_three() -> Vec<u8> {
    unhex(digest("three"))
}

#[test]
fn a_new_watcher_knows_nothing_and_awaits_nothing() {
    let mut watcher = watcher();
    assert!(watcher.metadata().is_empty());
    assert!(watcher.next_request().is_none());
    assert!(matches!(watcher.record(Outcome::Accepted), Ok(Recorded::Idle)));
    assert!(matches!(watcher.record(Outcome::Rejected), Ok(Recorded::Idle)));
    assert!(matches!(watcher.record(Outcome::Failed), Ok(Recorded::Idle)));
    assert!(watcher.metadata().is_empty());
}

#[test]
fn a_round_over_an_empty_scan_completes_at_once() {
    let mut watcher = watcher();
    assert!(watcher.lookup(&PathMap::new()).is_ok());
    assert!(watcher.next_request().is_none());
    assert!(watcher.metadata().is_empty());
}

#[test]
fn the_state_is_replaced_only_after_the_last_answer() {
    let mut watcher = watcher();
    watcher.lookup(&scan(vec![("a", "one"), ("b", "two")])).unwrap();
    assert!(watcher.metadata().is_empty());
    assert_eq!(watcher.next_request().unwrap().0, "a");
    assert!(matches!(
        watcher.record(Outcome::Accepted),
        Ok(Recorded::Emitted(RequestKind::AddCertificate))
    ));
    assert!(watcher.metadata().is_empty());
    assert_eq!(watcher.next_request().unwrap().0, "b");
    assert!(matches!(
        watcher.record(Outcome::Accepted),
        Ok(Recorded::Emitted(RequestKind::AddCertificate))
    ));
    assert!(watcher.next_request().is_none());
    assert_eq!(state(&watcher), vec![("a".to_string(), digest_one()), ("b".to_string(), digest_two())]);
}

#[test]
fn a_clean_round_leaves_nothing_for_the_next() {
    let mut watcher = watcher();
    let pki = scan(vec![("a", "one"), ("b", "two")]);
    watcher.lookup(&pki).unwrap();
    assert_eq!(drive(&mut watcher, &|_| Outcome::Accepted).len(), 2);
    let after_first = state(&watcher);

    watcher.lookup(&pki).unwrap();
    assert!(watcher.next_request().is_none());
    assert_eq!(state(&watcher), after_first);

    watcher.lookup(&scan(vec![("a", "one"), ("b", "two")])).unwrap();
    assert!(watcher.next_request().is_none());
    assert_eq!(state(&watcher), after_first);
}

#[test]
fn a_refused_replacement_is_rolled_back_and_tried_again() {
    let mut watcher = watcher();
    watcher.lookup(&scan(vec![("a", "one"), ("b", "two")])).unwrap();
    drive(&mut watcher, &|_| Outcome::Accepted);

    let pki = scan(vec![("a", "three"), ("b", "two")]);
    watcher.lookup(&pki).unwrap();
    let first = drive(&mut watcher, &|_| Outcome::Rejected);
    assert_eq!(
        first,
        vec![(
            "a".to_string(),
            RequestType::ReplaceCertificate(ReplaceCertificate {
                address: listener(),
                new_certificate: bundle("three"),
                old_fingerprint: "c66fbf55f02032fcab3b53f9b2ba6a69c69147b784a8437f7775625590626ac3"
                    .to_string(),
                new_expired_at: None,
            })
        )]
    );
    assert_eq!(state(&watcher), vec![("a".to_string(), digest_one()), ("b".to_string(), digest_two())]);

    watcher.lookup(&pki).unwrap();
    let second = drive(&mut watcher, &|_| Outcome::Accepted);
    assert_eq!(second, first);
    assert_eq!(state(&watcher), vec![("a".to_string(), digest_three()), ("b".to_string(), digest_two())]);
}

#[test]
fn a_refused_addition_is_forgotten_and_tried_again() {
    let mut watcher = watcher();
    let pki = scan(vec![("a", "one"), ("b", "two")]);
    watcher.lookup(&pki).unwrap();
    let first = drive(&mut watcher, &|position| {
        if position == 0 {
            Outcome::Rejected
        } else {
            Outcome::Accepted
        }
    });
    assert_eq!(first.len(), 2);
    assert_eq!(state(&watcher), vec![("b".to_string(), digest_two())]);
    assert!(watcher.metadata().get(&"a".to_string()).is_none());

    watcher.lookup(&pki).unwrap();
    let second = drive(&mut watcher, &|_| Outcome::Accepted);
    assert_eq!(
        second,
        vec![(
            "a".to_string(),
            RequestType::AddCertificate(AddCertificate {
                address: listener(),
                certificate: bundle("one"),
                expired_at: None,
            })
        )]
    );
    assert_eq!(second[0], first[0]);
    assert!(watcher.metadata().get(&"a".to_string()).is_some());
    assert_eq!(watcher.metadata().len(), 2);
}

#[test]
fn a_refused_removal_keeps_the_path_and_is_tried_again() {
    let mut watcher = watcher();
    watcher.lookup(&scan(vec![("a", "one"), ("b", "two")])).unwrap();
    drive(&mut watcher, &|_| Outcome::Accepted);

    let pki = scan(vec![("b", "two")]);
    watcher.lookup(&pki).unwrap();
    let first = drive(&mut watcher, &|_| Outcome::Rejected);
    assert_eq!(
        first,
        vec![(
            "a".to_string(),
            RequestType::RemoveCertificate(RemoveCertificate {
                address: listener(),
                fingerprint: "c66fbf55f02032fcab3b53f9b2ba6a69c69147b784a8437f7775625590626ac3"
                    .to_string(),
            })
        )]
    );
    assert_eq!(watcher.metadata().get(&"a".to_string()).unwrap().fingerprint, digest_one());
    assert_eq!(watcher.metadata().len(), 2);

    watcher.lookup(&pki).unwrap();
    assert_eq!(drive(&mut watcher, &|_| Outcome::Accepted), first);
    assert_eq!(state(&watcher), vec![("b".to_string(), digest_two())]);
}

#[test]
fn a_failure_on_the_third_of_five_requests_keeps_the_state() {
    let mut watcher = watcher();
    watcher.lookup(&scan(vec![("a", "one"), ("b", "two"), ("c", "three")])).unwrap();
    drive(&mut watcher, &|_| Outcome::Accepted);
    let before = state(&watcher);
    assert_eq!(before.len(), 3);

    // two additions, two removals, one replacement
    let pki = scan(vec![("d", "four"), ("e", "five"), ("c", "six")]);
    watcher.lookup(&pki).unwrap();
    assert!(matches!(
        watcher.record(Outcome::Accepted),
        Ok(Recorded::Emitted(RequestKind::AddCertificate))
    ));
    assert!(matches!(
        watcher.record(Outcome::Rejected),
        Ok(Recorded::EmittedError(RequestKind::AddCertificate))
    ));
    assert!(matches!(watcher.record(Outcome::Failed), Err(Error::Send)));
    assert!(watcher.next_request().is_none());
    assert_eq!(state(&watcher), before);
    assert!(matches!(watcher.record(Outcome::Accepted), Ok(Recorded::Idle)));
    assert_eq!(state(&watcher), before);

    // the next round sends all five again
    watcher.lookup(&pki).unwrap();
    let again = drive(&mut watcher, &|_| Outcome::Accepted);
    assert_eq!(again.len(), 5);
    assert_eq!(
        again.iter().map(|(path, request)| (path.as_str(), kind(request))).collect::<Vec<_>>(),
        vec![
            ("d", RequestKind::AddCertificate),
            ("e", RequestKind::AddCertificate),
            ("a", RequestKind::RemoveCertificate),
            ("b", RequestKind::RemoveCertificate),
            ("c", RequestKind::ReplaceCertificate),
        ]
    );
    assert_eq!(watcher.metadata().len(), 3);
    assert!(watcher.metadata().get(&"d".to_string()).is_some());
    assert!(watcher.metadata().get(&"e".to_string()).is_some());
    assert!(watcher.metadata().get(&"a".to_string()).is_none());
}

#[test]
fn a_failure_on_the_first_request_keeps_the_state() {
    let mut watcher = watcher();
    watcher.lookup(&scan(vec![("a", "one")])).unwrap();
    assert!(matches!(watcher.record(Outcome::Failed), Err(Error::Send)));
    assert!(watcher.metadata().is_empty());
    assert!(watcher.next_request().is_none());
}

#[test]
fn each_answer_is_counted_by_the_kind_of_its_request() {
    let mut watcher = watcher();
    watcher.lookup(&scan(vec![("a", "one"), ("b", "two")])).unwrap();
    drive(&mut watcher, &|_| Outcome::Accepted);

    watcher.lookup(&scan(vec![("b", "three"), ("c", "four")])).unwrap();
    assert_eq!(watcher.record(Outcome::Rejected).unwrap(), Recorded::EmittedError(RequestKind::AddCertificate));
    assert_eq!(watcher.record(Outcome::Accepted).unwrap(), Recorded::Emitted(RequestKind::RemoveCertificate));
    assert_eq!(watcher.record(Outcome::Rejected).unwrap(), Recorded::EmittedError(RequestKind::ReplaceCertificate));
    assert_eq!(watcher.record(Outcome::Accepted).unwrap(), Recorded::Idle);
    assert_eq!(state(&watcher), vec![("b".to_string(), digest_two())]);

    watcher.lookup(&scan(vec![("b", "three"), ("c", "four")])).unwrap();
    assert_eq!(watcher.record(Outcome::Accepted).unwrap(), Recorded::Emitted(RequestKind::AddCertificate));
    assert_eq!(watcher.record(Outcome::Accepted).unwrap(), Recorded::Emitted(RequestKind::ReplaceCertificate));
    assert_eq!(watcher.record(Outcome::Accepted).unwrap(), Recorded::Idle);
}

#[test]
fn a_bundle_without_a_digest_fails_the_round_and_keeps_the_state() {
    let mut watcher = watcher();
    watcher.lookup(&scan(vec![("a", "one")])).unwrap();
    drive(&mut watcher, &|_| Outcome::Accepted);
    let before = state(&watcher);

    let mut pki = scan(vec![("a", "two"), ("b", "three")]);
    pki.insert(
        "c".to_string(),
        CertificateAndKey {
            certificate: "no pem".to_string(),
            certificate_chain: vec![],
            key: String::new(),
            versions: vec![],
            names: vec![],
        },
    );
    match watcher.lookup(&pki) {
        Err(Error::ComputeMetadata(root, _)) => assert_eq!(root, "/pki"),
        other => panic!("unexpected {:?}", other),
    }
    assert!(watcher.next_request().is_none());
    assert_eq!(state(&watcher), before);
}

#[test]
fn a_round_in_flight_is_dropped_by_the_next_lookup() {
    let mut watcher = watcher();
    watcher.lookup(&scan(vec![("a", "one"), ("b", "two")])).unwrap();
    watcher.record(Outcome::Accepted).unwrap();
    watcher.lookup(&scan(vec![("c", "three")])).unwrap();
    assert_eq!(watcher.next_request().unwrap().0, "c");
    watcher.record(Outcome::Accepted).unwrap();
    assert_eq!(state(&watcher), vec![("c".to_string(), digest_three())]);
    assert!(watcher.next_request().is_none());
}

#[test]
fn kinds_follow_the_request() {
    let add = RequestType::AddCertificate(AddCertificate {
        address: listener(),
        certificate: bundle("one"),
        expired_at: None,
    });
    let remove = RequestType::RemoveCertificate(RemoveCertificate {
        address: listener(),
        fingerprint: String::new(),
    });
    let replace = RequestType::ReplaceCertificate(ReplaceCertificate {
        address: listener(),
        new_certificate: bundle("one"),
        old_fingerprint: String::new(),
        new_expired_at: None,
    });
    assert_eq!(kind(&add), RequestKind::AddCertificate);
    assert_eq!(kind(&remove), RequestKind::RemoveCertificate);
    assert_eq!(kind(&replace), RequestKind::ReplaceCertificate);
}

fn site(name: &str, certificates: &str) -> Entry {
    Entry::Directory(Directory {
        path: name.to_string(),
        files: Some(BundleFiles {
            certificates: File {
                path: format!("{}/{}.crt", name, name),
                content: Ok(certificates.to_string()),
            },
            key: File { path: format!("{}/{}.key", name, name), content: Ok(format!("key of {}", name)) },
            options: None,
        }),
    })
}

#[test]
fn a_certificate_is_added_and_then_replaced() {
    let mut watcher = watcher();

    // round one: one directory, one addition
    let found = find(&vec![site("siteA", site_a_first())]);
    watcher.lookup(&found.bundles).unwrap();
    let first = drive(&mut watcher, &|_| Outcome::Accepted);
    assert_eq!(first.len(), 1);
    assert_eq!(first[0].0, "siteA");
    match &first[0].1 {
        RequestType::AddCertificate(add) => {
            assert_eq!(add.address, listener());
            assert_eq!(add.certificate.certificate, site_a_first());
            assert_eq!(add.certificate.key, "key of siteA");
        }
        other => panic!("unexpected {:?}", other),
    }
    assert_eq!(watcher.metadata().len(), 1);
    let known: &Metadata = watcher.metadata().get(&"siteA".to_string()).unwrap();
    assert_eq!(
        known.fingerprint,
        unhex("c68dbc6a435598925078893a4a2f0fb12d08ade24c34495c3246caa8d3e09d92")
    );

    // round two: other bytes in the certificate file, one replacement
    let found = find(&vec![site("siteA", site_a_second())]);
    watcher.lookup(&found.bundles).unwrap();
    let second = drive(&mut watcher, &|_| Outcome::Accepted);
    assert_eq!(second.len(), 1);
    assert_eq!(second[0].0, "siteA");
    match &second[0].1 {
        RequestType::ReplaceCertificate(replace) => {
            assert_eq!(
                replace.old_fingerprint,
                "c68dbc6a435598925078893a4a2f0fb12d08ade24c34495c3246caa8d3e09d92"
            );
            assert_eq!(replace.new_certificate.certificate, site_a_second());
        }
        other => panic!("unexpected {:?}", other),
    }
    assert_eq!(watcher.metadata().len(), 1);
    assert_eq!(
        watcher.metadata().get(&"siteA".to_string()).unwrap().fingerprint,
        unhex("bf1145b40a390d501c194f808c772cf0053d344c18163980c3b36823307f9afd")
    );
}

#[test]
fn an_empty_certificate_file_is_passed_over_and_the_round_goes_on() {
    let mut watcher = watcher();
    let found = find(&vec![site("siteB", ""), site("siteA", site_a_first())]);
    assert_eq!(found.skipped.len(), 1);
    assert_eq!(found.skipped[0].0, "siteB");
    watcher.lookup(&found.bundles).unwrap();
    let sent = drive(&mut watcher, &|_| Outcome::Accepted);
    assert_eq!(sent.len(), 1);
    assert_eq!(sent[0].0, "siteA");
    assert_eq!(watcher.metadata().len(), 1);
    assert!(watcher.metadata().get(&"siteB".to_string()).is_none());
}
