//! Character-string helpers: lexicographic order, sorting, joining and
//! single-character case mapping.
use vstd::prelude::*;
use itertools::Itertools;

verus! {

/// Lexicographic order on character strings, by code point. Code point
/// order agrees with the byte order of UTF-8, which is how `str` compares.
pub open spec fn str_lt(a: Seq<char>, b: Seq<char>) -> bool
    decreases a.len(),
{
    if b.len() == 0 {
        false
    } else if a.len() == 0 {
        true
    } else if a[0] < b[0] {
        true
    } else if a[0] == b[0] {
        str_lt(a.drop_first(), b.drop_first())
    } else {
        false
    }
}

pub proof fn lemma_str_lt_asym(a: Seq<char>, b: Seq<char>)
    ensures
        str_lt(a, b) ==> !str_lt(b, a),
    decreases a.len(),
{
    if a.len() > 0 && b.len() > 0 && a[0] == b[0] {
        lemma_str_lt_asym(a.drop_first(), b.drop_first());
    }
}

pub proof fn lemma_str_lt_total(a: Seq<char>, b: Seq<char>)
    ensures
        a != b ==> str_lt(a, b) || str_lt(b, a),
    decreases a.len(),
{
    if a.len() > 0 && b.len() > 0 && a[0] == b[0] {
        lemma_str_lt_total(a.drop_first(), b.drop_first());
        if a.drop_first() == b.drop_first() {
            assert(a =~= seq![a[0]] + a.drop_first());
            assert(b =~= seq![b[0]] + b.drop_first());
        }
    } else if a.len() > 0 && b.len() > 0 && a[0] != b[0] {
        assert(a[0] < b[0] || b[0] < a[0]);
    } else if a.len() == 0 && b.len() == 0 {
        assert(a =~= b);
    }
}

/// Every pair of positions is in order: no element is repeated.
pub open spec fn strictly_sorted<A>(s: Seq<A>, lt: spec_fn(A, A) -> bool) -> bool {
    forall|i: int, j: int| 0 <= i < j < s.len() ==> #[trigger] lt(s[i], s[j])
}

/// Two strictly sorted sequences that hold the same elements are equal.
pub proof fn lemma_strictly_sorted_unique<A>(s: Seq<A>, t: Seq<A>, lt: spec_fn(A, A) -> bool)
    requires
        strictly_sorted(s, lt),
        strictly_sorted(t, lt),
        s.to_set() == t.to_set(),
        forall|x: A, y: A| #[trigger] lt(x, y) ==> !lt(y, x),
    ensures
        s == t,
    decreases s.len(),
{
    if s.len() == 0 {
        if t.len() > 0 {
            assert(t.to_set().contains(t[0]));
        }
        assert(s =~= t);
    } else {
        assert(s.to_set().contains(s[0]));
        if t.len() == 0 {
            assert(t.to_set().contains(s[0]));
        }
        assert(t.to_set().contains(t[0]));
        let k = choose|k: int| 0 <= k < t.len() && t[k] == s[0];
        let m = choose|m: int| 0 <= m < s.len() && s[m] == t[0];
        if k > 0 {
            assert(lt(t[0], t[k]));
            if m > 0 {
                assert(lt(s[0], s[m]));
            }
        }
        assert(s[0] == t[0]);
        let s1 = s.drop_first();
        let t1 = t.drop_first();
        assert forall|x: A| s1.to_set().contains(x) <==> t1.to_set().contains(x) by {
            if s1.to_set().contains(x) {
                let i = choose|i: int| 0 <= i < s1.len() && s1[i] == x;
                assert(lt(s[0], s[i + 1]));
                assert(s.to_set().contains(x));
                let j = choose|j: int| 0 <= j < t.len() && t[j] == x;
                assert(j != 0);
                assert(t1[j - 1] == x);
            }
            if t1.to_set().contains(x) {
                let i = choose|i: int| 0 <= i < t1.len() && t1[i] == x;
                assert(lt(t[0], t[i + 1]));
                assert(t.to_set().contains(x));
                let j = choose|j: int| 0 <= j < s.len() && s[j] == x;
                assert(j != 0);
                assert(s1[j - 1] == x);
            }
        }
        assert(s1.to_set() =~= t1.to_set());
        assert(strictly_sorted(s1, lt)) by {
            assert forall|i: int, j: int| 0 <= i < j < s1.len() implies #[trigger] lt(s1[i], s1[j]) by {
                assert(lt(s[i + 1], s[j + 1]));
            }
        }
        assert(strictly_sorted(t1, lt)) by {
            assert forall|i: int, j: int| 0 <= i < j < t1.len() implies #[trigger] lt(t1[i], t1[j]) by {
                assert(lt(t[i + 1], t[j + 1]));
            }
        }
        lemma_strictly_sorted_unique(s1, t1, lt);
        assert(s =~= seq![s[0]] + s1);
        assert(t =~= seq![t[0]] + t1);
    }
}

/// The character strings that a vector of `String`s holds.
pub open spec fn views(v: Seq<String>) -> Seq<Seq<char>> {
    v.map_values(|s: String| s@)
}

/// Relies on itertools' `sorted`: the items come out as a permutation of the
/// items that went in, in ascending order of `String`'s `Ord`.
#[verifier::external_body]
pub(crate) fn sort_strings(v: Vec<String>) -> (r: Vec<String>)
    ensures
        views(r@).to_multiset() == views(v@).to_multiset(),
        forall|i: int, j: int| 0 <= i < j < r@.len() ==> !str_lt(#[trigger] r@[j]@, #[trigger] r@[i]@),
{
    v.into_iter().sorted().collect()
}

/// Each part after the first is preceded by the separator.
pub open spec fn join_spec(parts: Seq<Seq<char>>, sep: Seq<char>) -> Seq<char>
    decreases parts.len(),
{
    if parts.len() == 0 {
        Seq::empty()
    } else if parts.len() == 1 {
        parts[0]
    } else {
        join_spec(parts.drop_last(), sep) + sep + parts.last()
    }
}

/// Relies on itertools' `join`: the parts written one after the other, with
/// the separator between each two.
#[verifier::external_body]
pub(crate) fn join_strings(parts: &Vec<String>, sep: &str) -> (r: String)
    ensures
        r@ == join_spec(views(parts@), sep@),
{
    parts.iter().join(sep)
}

/// Relies on `String::push`: the character is appended.
#[verifier::external_body]
pub(crate) fn push_char(s: &mut String, c: char)
    ensures
        final(s)@ == old(s)@.push(c),
{
    s.push(c)
}

/// What `char::to_lowercase` yields for a character.
pub uninterp spec fn lower_of(c: char) -> Seq<char>;

/// What `char::to_uppercase` yields for a character.
pub uninterp spec fn upper_of(c: char) -> Seq<char>;

pub open spec fn is_ascii_upper(c: char) -> bool {
    'A' <= c && c <= 'Z'
}

pub open spec fn is_ascii_lower(c: char) -> bool {
    'a' <= c && c <= 'z'
}

pub open spec fn is_ascii_char(c: char) -> bool {
c < (128u8 as char)
}

/// The ASCII lower-case form of an ASCII character.
pub open spec fn ascii_lower(c: char) -> char {
    if is_ascii_upper(c) {
        ((c as u32) + 32) as char
    } else {
        c
    }
}

/// The ASCII upper-case form of an ASCII character.
pub open spec fn ascii_upper(c: char) -> char {
    if is_ascii_lower(c) {
        ((c as u32) - 32) as char
    } else {
        c
    }
}

/// What `char::to_lowercase` yields: for an ASCII character its ASCII
/// lower-case form.
pub open spec fn char_lower(c: char) -> Seq<char> {
    if is_ascii_char(c) {
        seq![ascii_lower(c)]
    } else {
        lower_of(c)
    }
}

/// What `char::to_uppercase` yields: for an ASCII character its ASCII
/// upper-case form.
pub open spec fn char_upper(c: char) -> Seq<char> {
    if is_ascii_char(c) {
        seq![ascii_upper(c)]
    } else {
        upper_of(c)
    }
}

/// Relies on `char::to_lowercase`: its result depends on the character
/// alone, and an ASCII character maps to its ASCII lower-case form.
#[verifier::external_body]
pub(crate) fn lowercase_char(c: char) -> (r: String)
    ensures
        r@ == lower_of(c),
        r@ == char_lower(c),
{
    c.to_lowercase().to_string()
}

/// Relies on `char::to_uppercase`: its result depends on the character
/// alone, and an ASCII character maps to its ASCII upper-case form.
#[verifier::external_body]
pub(crate) fn uppercase_char(c: char) -> (r: String)
    ensures
        r@ == upper_of(c),
        r@ == char_upper(c),
{
    c.to_uppercase().to_string()
}

} // verus!
