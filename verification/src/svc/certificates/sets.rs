//! Lists read as sets: membership, inclusion and equality that ignore order
//! and repetition.

use vstd::prelude::*;

verus! {

/// A byte string holds nothing deeper than its bytes.
pub proof fn lemma_bytes_deep_view(bytes: Vec<u8>)
    ensures
        bytes.deep_view() == bytes@,
{
}

/// Whether two byte strings are the same.
pub fn same_bytes(a: &Vec<u8>, b: &Vec<u8>) -> (same: bool)
    ensures
        same == (a@ == b@),
{
    if a.len() != b.len() {
        return false;
    }
    let mut i: usize = 0;
    while i < a.len()
        invariant
            i <= a.len(),
            a.len() == b.len(),
            forall|k: int| 0 <= k < i ==> a@[k] == b@[k],
        decreases a.len() - i,
    {
        if a[i] != b[i] {
            return false;
        }
        i += 1;
    }
    assert(a@ =~= b@);
    true
}

/// Whether `text` occurs in `list`.
pub fn holds_text(list: &Vec<String>, text: &String) -> (found: bool)
    ensures
        found == list.deep_view().contains(text@),
{
    let mut i: usize = 0;
    while i < list.len()
        invariant
            i <= list.len(),
            forall|k: int| 0 <= k < i ==> list.deep_view()[k] != text@,
        decreases list.len() - i,
    {
        if list[i] == *text {
            assert(list.deep_view()[i as int] == text@);
            return true;
        }
        i += 1;
    }
    false
}

/// Whether every text of `a` occurs in `b`.
pub fn texts_within(a: &Vec<String>, b: &Vec<String>) -> (within: bool)
    ensures
        within == a.deep_view().to_set().subset_of(b.deep_view().to_set()),
{
    let mut i: usize = 0;
    while i < a.len()
        invariant
            i <= a.len(),
            forall|k: int| 0 <= k < i ==> b.deep_view().contains(#[trigger] a.deep_view()[k]),
        decreases a.len() - i,
    {
        if !holds_text(b, &a[i]) {
            proof {
                let missing = a.deep_view()[i as int];
                assert(!b.deep_view().to_set().contains(missing));
            }
            return false;
        }
        i += 1;
    }
    true
}

/// Whether `a` and `b` hold the same texts, whatever their order.
pub fn same_texts(a: &Vec<String>, b: &Vec<String>) -> (same: bool)
    ensures
        same == (a.deep_view().to_set() == b.deep_view().to_set()),
{
    let same = texts_within(a, b) && texts_within(b, a);
    proof {
        if same {
            assert(a.deep_view().to_set() =~= b.deep_view().to_set());
        }
    }
    same
}

/// Whether `bytes` occurs in `list`.
pub fn holds_bytes(list: &Vec<Vec<u8>>, bytes: &Vec<u8>) -> (found: bool)
    ensures
        found == list.deep_view().contains(bytes@),
{
    let mut i: usize = 0;
    while i < list.len()
        invariant
            i <= list.len(),
            forall|k: int| 0 <= k < i ==> list.deep_view()[k] != bytes@,
        decreases list.len() - i,
    {
        proof {
            lemma_bytes_deep_view(list@[i as int]);
        }
        if same_bytes(&list[i], bytes) {
            assert(list.deep_view()[i as int] == bytes@);
            return true;
        }
        i += 1;
    }
    false
}

/// Whether every byte string of `a` occurs in `b`.
pub fn bytes_within(a: &Vec<Vec<u8>>, b: &Vec<Vec<u8>>) -> (within: bool)
    ensures
        within == a.deep_view().to_set().subset_of(b.deep_view().to_set()),
{
    let mut i: usize = 0;
    while i < a.len()
        invariant
            i <= a.len(),
            forall|k: int| 0 <= k < i ==> b.deep_view().contains(#[trigger] a.deep_view()[k]),
        decreases a.len() - i,
    {
        proof {
            lemma_bytes_deep_view(a@[i as int]);
        }
        if !holds_bytes(b, &a[i]) {
            proof {
                let missing = a.deep_view()[i as int];
                assert(!b.deep_view().to_set().contains(missing));
            }
            return false;
        }
        i += 1;
    }
    true
}

/// Whether `a` and `b` hold the same byte strings, whatever their order.
pub fn same_digests(a: &Vec<Vec<u8>>, b: &Vec<Vec<u8>>) -> (same: bool)
    ensures
        same == (a.deep_view().to_set() == b.deep_view().to_set()),
{
    let same = bytes_within(a, b) && bytes_within(b, a);
    proof {
        if same {
            assert(a.deep_view().to_set() =~= b.deep_view().to_set());
        }
    }
    same
}

/// A copy of a list of texts.
pub fn copy_texts(list: &Vec<String>) -> (copy: Vec<String>)
    ensures
        copy.deep_view() == list.deep_view(),
{
    let mut copy: Vec<String> = Vec::new();
    let mut i: usize = 0;
    while i < list.len()
        invariant
            i <= list.len(),
            copy.len() == i,
            forall|k: int| 0 <= k < i ==> copy@[k]@ == list@[k]@,
        decreases list.len() - i,
    {
        copy.push(list[i].clone());
        i += 1;
    }
    copy
}

/// A copy of a list of byte strings.
pub fn copy_digests(list: &Vec<Vec<u8>>) -> (copy: Vec<Vec<u8>>)
    ensures
        copy.deep_view() == list.deep_view(),
{
    let mut copy: Vec<Vec<u8>> = Vec::new();
    let mut i: usize = 0;
    while i < list.len()
        invariant
            i <= list.len(),
            copy.len() == i,
            forall|k: int| 0 <= k < i ==> copy@[k]@ == list@[k]@,
        decreases list.len() - i,
    {
        let item = list[i].clone();
        copy.push(item);
        i += 1;
    }
    copy
}

} // verus!
