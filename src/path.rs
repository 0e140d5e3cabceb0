//! Namespace-qualified names: segments joined by `::`.
use vstd::prelude::*;

verus! {

/// A namespace separator `::` starts at position `i`.
pub open spec fn is_sep_at(s: Seq<char>, i: int) -> bool {
    0 <= i && i + 1 < s.len() && s[i] == ':' && s[i + 1] == ':'
}

/// The first separator at or after position `i`.
pub open spec fn first_sep_from(s: Seq<char>, i: int) -> Option<int>
    decreases s.len() - i,
{
    if i < 0 || i + 1 >= s.len() {
        None
    } else if is_sep_at(s, i) {
        Some(i)
    } else {
        first_sep_from(s, i + 1)
    }
}

pub open spec fn first_sep(s: Seq<char>) -> Option<int> {
    first_sep_from(s, 0)
}

/// The last separator that starts before position `k`.
pub open spec fn last_sep_below(s: Seq<char>, k: int) -> Option<int>
    decreases k,
{
    if k <= 0 {
        None
    } else if is_sep_at(s, k - 1) {
        Some(k - 1)
    } else {
        last_sep_below(s, k - 1)
    }
}

/// What follows the last separator, or the whole name where there is none.
pub open spec fn last_segment(s: Seq<char>) -> Seq<char> {
    match last_sep_below(s, s.len() as int) {
        Some(i) => s.skip(i + 2),
        None => s,
    }
}

/// The segment at `index` (counting separators from the front), and whether
/// it is the last one; `None` where the name has fewer segments.
pub open spec fn lookup_spec(s: Seq<char>, index: nat) -> Option<(Seq<char>, bool)>
    decreases index,
{
    match first_sep(s) {
        Some(p) => if index == 0 {
            Some((s.take(p), false))
        } else {
            lookup_spec(s.skip(p + 2), (index - 1) as nat)
        },
        None => if index == 0 {
            Some((s, true))
        } else {
            None
        },
    }
}

/// A first separator is a separator, at or after the starting point.
pub proof fn lemma_first_sep_from_bound(s: Seq<char>, i: int)
    ensures
        first_sep_from(s, i) matches Some(p) ==> i <= p && is_sep_at(s, p),
    decreases s.len() - i,
{
    if !(i < 0 || i + 1 >= s.len()) && !is_sep_at(s, i) {
        lemma_first_sep_from_bound(s, i + 1);
    }
}

/// The position of the first separator.
fn find_sep(s: &str) -> (r: Option<usize>)
    ensures
        match r {
            Some(i) => first_sep(s@) == Some(i as int),
            None => first_sep(s@) is None,
        },
        r matches Some(i) ==> is_sep_at(s@, i as int),
{
    let n = s.unicode_len();
    let mut i: usize = 0;
    while i < n && i + 1 < n
        invariant
            n == s@.len(),
            i <= n,
            first_sep(s@) == first_sep_from(s@, i as int),
        decreases n - i,
    {
        if s.get_char(i) == ':' && s.get_char(i + 1) == ':' {
            return Some(i);
        }
        i = i + 1;
    }
    None
}

/// Splits off the first segment of a qualified name: `Ok((first, rest))`, or
/// `Err(name)` where it holds no separator.
pub fn path_pop_front(path: String) -> (r: Result<(String, String), String>)
    ensures
        match first_sep(path@) {
            Some(i) => r matches Ok((a, b)) && a@ == path@.take(i) && b@ == path@.skip(i + 2),
            None => r matches Err(x) && x@ == path@,
        },
{
    match find_sep(path.as_str()) {
        Some(p) => {
            let n = path.as_str().unicode_len();
            let first = String::from_str(path.as_str().substring_char(0, p));
            let rest = String::from_str(path.as_str().substring_char(p + 2, n));
            proof {
                assert(path@.subrange(0, p as int) =~= path@.take(p as int));
                assert(path@.subrange(p + 2, n as int) =~= path@.skip(p + 2));
            }
            Ok((first, rest))
        },
        None => Err(path),
    }
}

/// The last segment of a qualified name.
pub fn path_last(path: &str) -> (r: &str)
    ensures
        r@ == last_segment(path@),
{
    let n = path.unicode_len();
    let mut k: usize = n;
    while k > 0
        invariant
            k <= n,
            n == path@.len(),
            last_sep_below(path@, n as int) == last_sep_below(path@, k as int),
        decreases k,
    {
        if k < n && path.get_char(k - 1) == ':' && path.get_char(k) == ':' {
            proof {
                assert(path@.subrange(k as int + 1, n as int) =~= path@.skip(k as int + 1));
            }
            return path.substring_char(k + 1, n);
        }
        k = k - 1;
    }
    proof {
        assert(path@.subrange(0, n as int) =~= path@);
    }
    path.substring_char(0, n)
}

/// The segment at `index` of a qualified name, and whether it is the last.
pub fn path_lookup(path: &str, index: usize) -> (r: Option<(&str, bool)>)
    ensures
        match lookup_spec(path@, index as nat) {
            Some((seg, last)) => r matches Some((x, l)) && x@ == seg && l == last,
            None => r is None,
        },
{
    let mut rest: &str = path;
    let mut j: usize = 0;
    while j < index
        invariant
            j <= index,
            lookup_spec(path@, index as nat) == lookup_spec(rest@, (index - j) as nat),
        decreases index - j,
    {
        match find_sep(rest) {
            Some(p) => {
                let n = rest.unicode_len();
                proof {
                    assert(rest@.subrange(p + 2, n as int) =~= rest@.skip(p + 2));
                }
                rest = rest.substring_char(p + 2, n);
            },
            None => {
                return None;
            },
        }
        j = j + 1;
    }
    let n = rest.unicode_len();
    match find_sep(rest) {
        Some(p) => {
            proof {
                assert(rest@.subrange(0, p as int) =~= rest@.take(p as int));
            }
            Some((rest.substring_char(0, p), false))
        },
        None => {
            proof {
                assert(rest@.subrange(0, n as int) =~= rest@);
            }
            Some((rest.substring_char(0, n), true))
        },
    }
}

} // verus!
