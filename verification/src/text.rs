//! Record ids as text: case folding, identity and order.

use vstd::prelude::*;
use vstd::utf8::*;

verus! {

/// An ASCII capital as its small letter; any other character unchanged.
pub open spec fn lower_char(c: char) -> char {
    if 'A' <= c && c <= 'Z' {
        (c as u32 + 32) as char
    } else {
        c
    }
}

/// `s` with every ASCII capital made small: the form under which ids are compared.
pub open spec fn lower(s: Seq<char>) -> Seq<char> {
    s.map_values(|c: char| lower_char(c))
}

/// `str::to_ascii_lowercase`: a new string in which the ASCII letters `A` to `Z` are mapped to
/// `a` to `z` and every other character is unchanged.
pub assume_specification[ str::to_ascii_lowercase ](s: &str) -> (res: String)
    ensures
        res@ == lower(s@),
;

/// `str::eq_ignore_ascii_case`: whether the two strings are equal once both are mapped to ASCII
/// lower case.
pub assume_specification[ str::eq_ignore_ascii_case ](s: &str, other: &str) -> (res: bool)
    ensures
        res == (lower(s@) == lower(other@)),
;

/// `a` and `b` differ at most in the case of ASCII letters.
pub open spec fn same(a: Seq<char>, b: Seq<char>) -> bool {
    lower(a) == lower(b)
}

/// An ASCII capital as its small letter; any other character unchanged.
pub fn fold_char(c: char) -> (res: char)
    ensures
        res == lower_char(c),
{
    if 'A' <= c && c <= 'Z' {
        ((c as u8) + 32) as char
    } else {
        c
    }
}

/// Whether two ids name the same record.
pub fn same_id(a: &str, b: &str) -> (res: bool)
    ensures
        res == same(a@, b@),
{
    a.eq_ignore_ascii_case(b)
}

/// Case folding twice is case folding once.
pub proof fn lemma_lower_idempotent(s: Seq<char>)
    ensures
        lower(lower(s)) == lower(s),
{
    assert forall|i: int| 0 <= i < s.len() implies lower_char(lower_char(s[i])) == lower_char(
        s[i],
    ) by {}
    assert(lower(lower(s)) =~= lower(s));
}

/// Case folding keeps the length, so it empties nothing.
pub proof fn lemma_lower_len(s: Seq<char>)
    ensures
        lower(s).len() == s.len(),
        lower(s) == Seq::<char>::empty() <==> s == Seq::<char>::empty(),
{
    assert(lower(s) == Seq::<char>::empty() ==> s =~= Seq::<char>::empty());
    assert(s == Seq::<char>::empty() ==> lower(s) =~= Seq::<char>::empty());
}

/// `a` and `b` agree below `i`, and at `i` either `a` has ended and `b` has not, or `a` holds the
/// smaller byte.
pub open spec fn precedes_at(a: Seq<u8>, b: Seq<u8>, i: int) -> bool {
    &&& 0 <= i <= a.len()
    &&& i < b.len()
    &&& forall|k: int| 0 <= k < i ==> a[k] == b[k]
    &&& i < a.len() ==> a[i] < b[i]
}

/// The order of byte strings in a dictionary.
pub open spec fn bytes_less(a: Seq<u8>, b: Seq<u8>) -> bool {
    exists|i: int| precedes_at(a, b, i)
}

/// The order of strings: lexicographic by the bytes of their UTF-8 form.
pub open spec fn id_less(a: Seq<char>, b: Seq<char>) -> bool {
    bytes_less(encode_utf8(a), encode_utf8(b))
}

proof fn lemma_bytes_less_transitive(a: Seq<u8>, b: Seq<u8>, c: Seq<u8>)
    requires
        bytes_less(a, b),
        bytes_less(b, c),
    ensures
        bytes_less(a, c),
{
    let i = choose|i: int| precedes_at(a, b, i);
    let j = choose|j: int| precedes_at(b, c, j);
    if i <= j {
        assert(precedes_at(a, c, i));
    } else {
        assert(precedes_at(a, c, j));
    }
}

proof fn lemma_bytes_less_irreflexive(a: Seq<u8>)
    ensures
        !bytes_less(a, a),
{
}

/// `id_less` is transitive.
pub proof fn lemma_id_less_transitive(a: Seq<char>, b: Seq<char>, c: Seq<char>)
    requires
        id_less(a, b),
        id_less(b, c),
    ensures
        id_less(a, c),
{
    lemma_bytes_less_transitive(encode_utf8(a), encode_utf8(b), encode_utf8(c));
}

/// No id precedes itself, and of two ids at most one precedes the other.
pub proof fn lemma_id_less_asymmetric(a: Seq<char>, b: Seq<char>)
    ensures
        !id_less(a, a),
        id_less(a, b) ==> a != b && !id_less(b, a),
{
    lemma_bytes_less_irreflexive(encode_utf8(a));
    if id_less(a, b) && id_less(b, a) {
        lemma_id_less_transitive(a, b, a);
    }
}

/// Strings with the same UTF-8 form are the same string.
pub proof fn lemma_encode_injective(a: Seq<char>, b: Seq<char>)
    requires
        encode_utf8(a) == encode_utf8(b),
    ensures
        a == b,
{
    encode_utf8_decode_utf8(a);
    encode_utf8_decode_utf8(b);
}

proof fn lemma_bytes_less_total(a: Seq<u8>, b: Seq<u8>, i: int)
    requires
        a != b,
        0 <= i <= a.len(),
        i <= b.len(),
        forall|k: int| 0 <= k < i ==> a[k] == b[k],
    ensures
        bytes_less(a, b) || bytes_less(b, a),
    decreases a.len() - i,
{
    if i < a.len() && i < b.len() && a[i] == b[i] {
        lemma_bytes_less_total(a, b, i + 1);
    } else if i < b.len() && (i == a.len() || a[i] < b[i]) {
        assert(precedes_at(a, b, i));
    } else if i < a.len() {
        assert(precedes_at(b, a, i));
    } else {
        assert(a =~= b);
    }
}

/// Of two different ids one precedes the other.
pub proof fn lemma_id_less_total(a: Seq<char>, b: Seq<char>)
    ensures
        a == b || id_less(a, b) || id_less(b, a),
{
    if encode_utf8(a) == encode_utf8(b) {
        lemma_encode_injective(a, b);
    } else {
        lemma_bytes_less_total(encode_utf8(a), encode_utf8(b), 0);
    }
}

/// How one id stands to another in the order of strings.
#[derive(Clone, Copy, Debug, PartialEq, Eq, Structural)]
pub enum Placement {
    Before,
    Same,
    After,
}

/// Compares two ids in the order of strings.
pub fn place(a: &str, b: &str) -> (res: Placement)
    ensures
        res is Before <==> id_less(a@, b@),
        res is Same <==> a@ == b@,
        res is After <==> id_less(b@, a@),
{
    let left: &[u8] = a.as_bytes();
    let right: &[u8] = b.as_bytes();
    let mut i: usize = 0;
    proof {
        lemma_id_less_asymmetric(a@, b@);
        lemma_id_less_asymmetric(b@, a@);
    }
    while i < left.len() && i < right.len()
        invariant
            i <= left@.len(),
            i <= right@.len(),
            left@ == encode_utf8(a@),
            right@ == encode_utf8(b@),
            forall|k: int| 0 <= k < i ==> left@[k] == right@[k],
            id_less(a@, b@) ==> a@ != b@ && !id_less(b@, a@),
            id_less(b@, a@) ==> a@ != b@,
        decreases left@.len() - i,
    {
        if left[i] < right[i] {
            assert(precedes_at(left@, right@, i as int));
            return Placement::Before;
        }
        if right[i] < left[i] {
            assert(precedes_at(right@, left@, i as int));
            return Placement::After;
        }
        i += 1;
    }
    if i < right.len() {
        assert(precedes_at(left@, right@, i as int));
        Placement::Before
    } else if i < left.len() {
        assert(precedes_at(right@, left@, i as int));
        Placement::After
    } else {
        assert(left@ =~= right@);
        proof {
            lemma_encode_injective(a@, b@);
        }
        Placement::Same
    }
}

} // verus!
