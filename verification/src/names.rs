//! Names: comparing them, and finding the first of a list that matches.

use vstd::prelude::*;
use vstd::string::StringSliceAdditionalSpecFns;
use vstd::utf8::{encode_utf8, encode_utf8_decode_utf8};

verus! {

/// Whether two byte strings are the same.
pub fn bytes_eq(a: &[u8], b: &[u8]) -> (same: bool)
    ensures
        same == (a@ == b@),
{
    if a.len() != b.len() {
        return false;
    }
    let mut i: usize = 0;
    while i < a.len()
        invariant
            i <= a@.len(),
            a@.len() == b@.len(),
            a@.take(i as int) == b@.take(i as int),
        decreases a@.len() - i,
    {
        if a[i] != b[i] {
            return false;
        }
        i += 1;
        assert(a@.take(i as int) =~= a@.take(i - 1).push(a@[i - 1]));
        assert(b@.take(i as int) =~= b@.take(i - 1).push(b@[i - 1]));
    }
    assert(a@.take(i as int) =~= a@);
    assert(b@.take(i as int) =~= b@);
    true
}

/// Whether two texts are the same.
pub fn str_eq(a: &str, b: &str) -> (same: bool)
    ensures
        same == (a@ == b@),
{
    proof {
        encode_utf8_decode_utf8(a@);
        encode_utf8_decode_utf8(b@);
    }
    bytes_eq(a.as_bytes(), b.as_bytes())
}

/// Whether `a` and `b` are the same up to position `k`, and `a` ends
/// there while `b` goes on, or `a` has the smaller byte there.
pub open spec fn parts_at(a: Seq<u8>, b: Seq<u8>, k: int) -> bool {
    &&& 0 <= k <= a.len()
    &&& k <= b.len()
    &&& forall|i: int| 0 <= i < k ==> a[i] == b[i]
    &&& (k == a.len() && k < b.len()) || (k < a.len() && k < b.len() && a[k] < b[k])
}

/// Whether `a` comes before `b` in the order of a dictionary, byte by
/// byte.
pub open spec fn bytes_before(a: Seq<u8>, b: Seq<u8>) -> bool {
    exists|k: int| parts_at(a, b, k)
}

/// Whether the name `a` comes before the name `b`: the order of their
/// bytes in UTF-8, which is the order of texts.
pub open spec fn name_before(a: Seq<char>, b: Seq<char>) -> bool {
    bytes_before(encode_utf8(a), encode_utf8(b))
}

/// Whether `names` stand in ascending order, each before the next. No
/// name then occurs twice.
pub open spec fn names_ascending(names: Seq<Seq<char>>) -> bool {
    forall|i: int, j: int| 0 <= i < j < names.len() ==> name_before(names[i], names[j])
}

/// What comes before something that comes before a third comes before
/// the third.
pub proof fn lemma_before_trans(a: Seq<u8>, b: Seq<u8>, c: Seq<u8>)
    requires
        bytes_before(a, b),
        bytes_before(b, c),
    ensures
        bytes_before(a, c),
{
    let k1 = choose|k: int| parts_at(a, b, k);
    let k2 = choose|k: int| parts_at(b, c, k);
    let k = if k1 <= k2 {
        k1
    } else {
        k2
    };
    assert(parts_at(a, c, k));
}

/// In names that stand in ascending order no name occurs twice.
pub proof fn lemma_ascending_distinct(names: Seq<Seq<char>>)
    requires
        names_ascending(names),
    ensures
        distinct_names(names),
{
    assert forall|i: int, j: int| 0 <= i < j < names.len() implies names[i] != names[j] by {
        assert(name_before(names[i], names[j]));
        let k = choose|k: int| parts_at(encode_utf8(names[i]), encode_utf8(names[j]), k);
        if names[i] == names[j] {
            assert(encode_utf8(names[i])[k] == encode_utf8(names[j])[k]);
        }
    }
}

/// How one text stands to another.
#[derive(Debug, Clone, Copy, PartialEq, Eq, Structural)]
pub enum Place {
    Before,
    Same,
    After,
}

/// Where `a` stands to `b` in the order of a dictionary.
pub fn bytes_place(a: &[u8], b: &[u8]) -> (place: Place)
    ensures
        match place {
            Place::Before => bytes_before(a@, b@),
            Place::Same => a@ == b@,
            Place::After => bytes_before(b@, a@),
        },
{
    let mut k: usize = 0;
    while k < a.len() && k < b.len()
        invariant
            k <= a@.len(),
            k <= b@.len(),
            forall|i: int| 0 <= i < k ==> a@[i] == b@[i],
        decreases a@.len() - k,
    {
        if a[k] < b[k] {
            assert(parts_at(a@, b@, k as int));
            return Place::Before;
        }
        if a[k] > b[k] {
            assert(parts_at(b@, a@, k as int));
            return Place::After;
        }
        k += 1;
    }
    if a.len() < b.len() {
        assert(parts_at(a@, b@, k as int));
        Place::Before
    } else if b.len() < a.len() {
        assert(parts_at(b@, a@, k as int));
        Place::After
    } else {
        assert(a@ =~= b@);
        Place::Same
    }
}

/// Where the name `a` stands to the name `b`.
pub fn name_place(a: &str, b: &str) -> (place: Place)
    ensures
        match place {
            Place::Before => name_before(a@, b@),
            Place::Same => a@ == b@,
            Place::After => name_before(b@, a@),
        },
{
    proof {
        encode_utf8_decode_utf8(a@);
        encode_utf8_decode_utf8(b@);
    }
    bytes_place(a.as_bytes(), b.as_bytes())
}

/// Puts `name` among `names` where the order asks for it.
pub fn insert_name(names: &mut Vec<String>, name: String)
    requires
        names_ascending(old(names).deep_view()),
        !old(names).deep_view().contains(name@),
    ensures
        names_ascending(final(names).deep_view()),
        final(names)@.len() == old(names)@.len() + 1,
        forall|n: Seq<char>|
            final(names).deep_view().contains(n) <==> old(names).deep_view().contains(n) || n
                == name@,
{
    let ghost before = names.deep_view();
    let ghost new = name@;
    let mut pos: usize = 0;
    let mut found = false;
    while pos < names.len() && !found
        invariant
            pos <= names@.len(),
            before == names.deep_view(),
            before.len() == names@.len(),
            new == name@,
            !before.contains(new),
            forall|i: int| 0 <= i < pos ==> name_before(before[i], new),
            found ==> pos < names@.len() && name_before(new, before[pos as int]),
        decreases names@.len() - pos + (if found { 0int } else { 1int }),
    {
        proof {
            assert(before[pos as int] == names@[pos as int]@);
        }
        match name_place(name.as_str(), names[pos].as_str()) {
            Place::Before => {
                found = true;
            },
            Place::Same => {
                proof {
                    assert(before.contains(before[pos as int]));
                    assert(false);
                }
            },
            Place::After => {
                pos += 1;
            },
        }
    }
    names.insert(pos, name);
    proof {
        let after = names.deep_view();
        assert(after =~= before.insert(pos as int, new)) by {
            assert(after.len() == before.len() + 1);
            assert forall|i: int| 0 <= i < after.len() implies after[i] == before.insert(
                pos as int,
                new,
            )[i] by {
                assert(after[i] == names@[i]@);
                if i < pos {
                    assert(names@[i] == old(names)@[i]);
                    assert(before[i] == old(names)@[i]@);
                } else if i > pos {
                    assert(names@[i] == old(names)@[i - 1]);
                    assert(before[i - 1] == old(names)@[i - 1]@);
                }
            }
        }
        assert forall|i: int, j: int| 0 <= i < j < after.len() implies name_before(
            after[i],
            after[j],
        ) by {
            if j == pos {
            } else if i == pos {
                if j - 1 > pos {
                    assert(name_before(before[pos as int], before[j - 1]));
                    lemma_before_trans(
                        encode_utf8(new),
                        encode_utf8(before[pos as int]),
                        encode_utf8(before[j - 1]),
                    );
                }
            } else {
                let a = if i < pos { i } else { i - 1 };
                let b = if j < pos { j } else { j - 1 };
                assert(name_before(before[a], before[b]));
            }
        }
        assert forall|n: Seq<char>| after.contains(n) <==> before.contains(n) || n == new by {
            if after.contains(n) {
                let i = choose|i: int| 0 <= i < after.len() && after[i] == n;
                if i < pos {
                    assert(before[i] == n);
                } else if i > pos {
                    assert(before[i - 1] == n);
                }
            }
            if before.contains(n) {
                let i = choose|i: int| 0 <= i < before.len() && before[i] == n;
                if i < pos {
                    assert(after[i] == n);
                } else {
                    assert(after[i + 1] == n);
                }
            }
            if n == new {
                assert(after[pos as int] == n);
            }
        }
    }
}

/// The first position from `start` on at which `names` holds `name`.
pub open spec fn find_from(names: Seq<Seq<char>>, name: Seq<char>, start: int) -> Option<int>
    decreases names.len() - start,
{
    if start < 0 || start >= names.len() {
        None
    } else if names[start] == name {
        Some(start)
    } else {
        find_from(names, name, start + 1)
    }
}

/// The first position at which `names` holds `name`.
pub open spec fn find_name(names: Seq<Seq<char>>, name: Seq<char>) -> Option<int> {
    find_from(names, name, 0)
}

/// Whether no name occurs twice in `names`.
pub open spec fn distinct_names(names: Seq<Seq<char>>) -> bool {
    forall|i: int, j: int| 0 <= i < j < names.len() ==> names[i] != names[j]
}

/// What `find_from` finds is the first match, and it finds one if there is any.
pub proof fn lemma_find_from(names: Seq<Seq<char>>, name: Seq<char>, start: int)
    requires
        0 <= start,
    ensures
        match find_from(names, name, start) {
            Some(i) => {
                &&& start <= i < names.len()
                &&& names[i] == name
                &&& forall|j: int| start <= j < i ==> names[j] != name
            },
            None => forall|j: int| start <= j < names.len() ==> names[j] != name,
        },
    decreases names.len() - start,
{
    if start < names.len() && names[start] != name {
        lemma_find_from(names, name, start + 1);
    }
}

/// What `find_name` finds is the first match, and it finds one if there is any.
pub proof fn lemma_find_name(names: Seq<Seq<char>>, name: Seq<char>)
    ensures
        match find_name(names, name) {
            Some(i) => {
                &&& 0 <= i < names.len()
                &&& names[i] == name
                &&& forall|j: int| 0 <= j < i ==> names[j] != name
            },
            None => forall|j: int| 0 <= j < names.len() ==> names[j] != name,
        },
{
    lemma_find_from(names, name, 0);
}

/// A search that has passed over `i` names without a match goes on from there.
pub proof fn lemma_find_skips(names: Seq<Seq<char>>, name: Seq<char>, i: int)
    requires
        0 <= i <= names.len(),
        forall|j: int| 0 <= j < i ==> names[j] != name,
    ensures
        find_name(names, name) == find_from(names, name, i),
    decreases i,
{
    if i > 0 {
        lemma_find_skips(names, name, i - 1);
    }
}

} // verus!
