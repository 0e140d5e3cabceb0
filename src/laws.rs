//! Properties that hold across calls and for all inputs.
use vstd::prelude::*;
use crate::{Cardinality, GenerateErrorView, PointerView, TableView};
use crate::context::header_spec;
use crate::generate::{Import, column_type_out, columns_out, qualifier_spec, tables_out, unit_spec};
use crate::naming::{camel_spec, cased_segments, is_name_sep, leads, segments, lemma_segments_len};
use crate::text::{ascii_lower, char_lower, is_ascii_char, is_ascii_upper, join_spec,
    lemma_str_lt_asym, lemma_str_lt_total, lemma_strictly_sorted_unique};
use crate::transform::{collections, column_candidates, is_collection, is_column,
    is_table_split, join_table_spec, ptr_lt};

verus! {

broadcast use vstd::seq_lib::group_to_multiset_ensures;

/// No two pointers share a name.
pub open spec fn unique_names(ps: Seq<PointerView>) -> bool {
    forall|i: int, j: int| 0 <= i < j < ps.len() ==> (#[trigger] ps[i]).name != (#[trigger] ps[j]).name
}

proof fn lemma_filter_count<A>(s: Seq<A>, f: spec_fn(A) -> bool, x: A)
    ensures
        s.filter(f).to_multiset().count(x) == if f(x) { s.to_multiset().count(x) } else { 0 },
    decreases s.len(),
{
    reveal(Seq::filter);
    if s.len() > 0 {
        lemma_filter_count(s.drop_last(), f, x);
        assert(s =~= s.drop_last().push(s.last()));
    }
}

proof fn lemma_filter_multiset<A>(s: Seq<A>, t: Seq<A>, f: spec_fn(A) -> bool)
    requires
        s.to_multiset() == t.to_multiset(),
    ensures
        s.filter(f).to_multiset() == t.filter(f).to_multiset(),
{
    assert forall|x: A| s.filter(f).to_multiset().count(x) == t.filter(f).to_multiset().count(x) by {
        lemma_filter_count(s, f, x);
        lemma_filter_count(t, f, x);
    }
    assert(s.filter(f).to_multiset() =~= t.filter(f).to_multiset());
}

/// What a filter keeps comes from the sequence and meets the predicate.
proof fn lemma_filter_from<A>(s: Seq<A>, f: spec_fn(A) -> bool, i: int)
    requires
        0 <= i < s.filter(f).len(),
    ensures
        s.contains(s.filter(f)[i]),
        f(s.filter(f)[i]),
    decreases s.len(),
{
    reveal(Seq::filter);
    if s.len() > 0 {
        let d = s.drop_last();
        if i < d.filter(f).len() {
            lemma_filter_from(d, f, i);
            let k = choose|k: int| 0 <= k < d.len() && d[k] == d.filter(f)[i];
            assert(s[k] == d[k]);
        } else {
            assert(s[s.len() - 1] == s.last());
        }
    }
}

proof fn lemma_filter_unique_names(s: Seq<PointerView>, f: spec_fn(PointerView) -> bool)
    requires
        unique_names(s),
    ensures
        unique_names(s.filter(f)),
    decreases s.len(),
{
    reveal(Seq::filter);
    if s.len() > 0 {
        let d = s.drop_last();
        assert(unique_names(d)) by {
            assert forall|i: int, j: int| 0 <= i < j < d.len() implies (#[trigger] d[i]).name != (#[trigger] d[j]).name by {
                assert(s[i] == d[i] && s[j] == d[j]);
            }
        }
        lemma_filter_unique_names(d, f);
        let fd = d.filter(f);
        if f(s.last()) {
            let r = fd.push(s.last());
            assert forall|i: int, j: int| 0 <= i < j < r.len() implies (#[trigger] r[i]).name != (#[trigger] r[j]).name by {
                if j == r.len() - 1 {
                    lemma_filter_from(d, f, i);
                    assert(d.contains(fd[i]));
                    let k = choose|k: int| 0 <= k < d.len() && d[k] == fd[i];
                    assert(s[k] == fd[i]);
                    assert(s[s.len() - 1] == s.last());
                }
            }
        }
    }
}

/// The order of a table's columns depends on the set of pointers alone:
/// two types whose pointers are the same up to order (names unique) get
/// the same columns in the same order.
pub proof fn column_order_ignores_pointer_order(
    name: Seq<char>,
    ps1: Seq<PointerView>,
    ps2: Seq<PointerView>,
    r1: Seq<TableView>,
    r2: Seq<TableView>,
)
    requires
        ps1.to_multiset() == ps2.to_multiset(),
        unique_names(ps1),
        is_table_split(name, ps1, r1),
        is_table_split(name, ps2, r2),
    ensures
        r1[0].columns == r2[0].columns,
{
    let c1 = r1[0].columns;
    let c2 = r2[0].columns;
    let f = |p: PointerView| is_column(p);
    lemma_filter_multiset(ps1, ps2, f);
    lemma_filter_unique_names(ps1, f);
    let cand = column_candidates(ps1);
    assert(c1.to_multiset() == c2.to_multiset());
    let lt = |a: PointerView, b: PointerView| ptr_lt(a, b);
    assert forall|x: PointerView, y: PointerView| #[trigger] lt(x, y) implies !lt(y, x) by {
        lemma_str_lt_asym(x.name, y.name);
    }
    // A column that occurs in c1 or c2 occurs in `cand`, whose names are unique.
    assert forall|i: int, j: int| 0 <= i < j < c1.len() implies #[trigger] lt(c1[i], c1[j]) by {
        lemma_strict(cand, c1, i, j);
    }
    assert forall|i: int, j: int| 0 <= i < j < c2.len() implies #[trigger] lt(c2[i], c2[j]) by {
        lemma_strict(cand, c2, i, j);
    }
    assert forall|x: PointerView| c1.to_set().contains(x) <==> c2.to_set().contains(x) by {
        assert(c1.to_multiset().contains(x) <==> c1.contains(x));
        assert(c2.to_multiset().contains(x) <==> c2.contains(x));
    }
    assert(c1.to_set() =~= c2.to_set());
    lemma_strictly_sorted_unique(c1, c2, lt);
}

/// In a column-sorted permutation of pointers with unique names, each two
/// positions are strictly in order.
proof fn lemma_strict(cand: Seq<PointerView>, c: Seq<PointerView>, i: int, j: int)
    requires
        unique_names(cand),
        c.to_multiset() == cand.to_multiset(),
        crate::transform::column_sorted(c),
        0 <= i < j < c.len(),
    ensures
        ptr_lt(c[i], c[j]),
{
    assert(c.to_multiset().contains(c[i]));
    assert(c.to_multiset().contains(c[j]));
    let a = choose|a: int| 0 <= a < cand.len() && cand[a] == c[i];
    let b = choose|b: int| 0 <= b < cand.len() && cand[b] == c[j];
    if a == b {
        // c[i] == c[j] would occur twice in c but once in cand.
        assert(c.to_multiset().count(c[i]) >= 2) by {
            let d = c.remove(j);
            assert(c.to_multiset() == d.to_multiset().insert(c[j])) by {
                vstd::seq_lib::to_multiset_remove(c, j);
                assert(d.to_multiset() == c.to_multiset().remove(c[j]));
            }
            assert(d[i] == c[i]);
            assert(d.to_multiset().contains(c[i]));
        }
        assert(cand.to_multiset().count(c[i]) <= 1) by {
            assert(cand.no_duplicates());
            cand.lemma_multiset_has_no_duplicates();
        }
    }
    assert(c[i].name != c[j].name);
    lemma_str_lt_total(c[i].name, c[j].name);
    assert(!ptr_lt(c[j], c[i]));
}

/// A collection pointer gets exactly one join table, named
/// `<type>.<pointer>`, whose two columns `source` and `target` are both
/// required and single-valued.
pub proof fn collection_has_one_join_table(
    name: Seq<char>,
    ps: Seq<PointerView>,
    r: Seq<TableView>,
    k: int,
)
    requires
        unique_names(ps),
        is_table_split(name, ps, r),
        0 <= k < ps.len(),
        ps[k].cardinality == Cardinality::Many,
    ensures
        exists|i: int|
            0 <= i < r.len() && (#[trigger] r[i]).name == name + "."@ + ps[k].name
                && r[i].columns.len() == 2 && r[i].columns[0].name == "source"@
                && r[i].columns[1].name == "target"@ && r[i].columns[0].required
                && r[i].columns[1].required && r[i].columns[0].cardinality == Cardinality::One
                && r[i].columns[1].cardinality == Cardinality::One,
        forall|i: int, j: int|
            0 <= i < r.len() && 0 <= j < r.len() && (#[trigger] r[i]).name == name + "."@ + ps[k].name
                && (#[trigger] r[j]).name == name + "."@ + ps[k].name ==> i == j,
{
    let f = |p: PointerView| is_collection(p);
    let cs = collections(ps);
    ps.lemma_filter_contains(f, k);
    lemma_filter_unique_names(ps, f);
    let m = choose|m: int| 0 <= m < cs.len() && cs[m] == ps[k];
    assert(r[m + 1] == join_table_spec(name, cs[m]));
    let jn = name + "."@ + ps[k].name;
    reveal_strlit(".");
    assert forall|i: int, j: int|
        0 <= i < r.len() && 0 <= j < r.len() && (#[trigger] r[i]).name == jn
            && (#[trigger] r[j]).name == jn implies i == j by {
        if i == 0 {
            assert(r[0].name.len() < jn.len());
        }
        if j == 0 {
            assert(r[0].name.len() < jn.len());
        }
        if i > 0 && j > 0 {
            let a = i - 1;
            let b = j - 1;
            assert(r[a + 1] == join_table_spec(name, cs[a]));
            assert(r[b + 1] == join_table_spec(name, cs[b]));
            let pre = name + "."@;
            assert(cs[i - 1].name =~= jn.subrange(pre.len() as int, jn.len() as int));
            assert(cs[j - 1].name =~= jn.subrange(pre.len() as int, jn.len() as int));
        }
    }
}

/// The synthetic pointer `__type__` is never a column.
pub proof fn type_pointer_is_never_a_column(
    name: Seq<char>,
    ps: Seq<PointerView>,
    r: Seq<TableView>,
    i: int,
    k: int,
)
    requires
        is_table_split(name, ps, r),
        0 <= i < r.len(),
        0 <= k < r[i].columns.len(),
    ensures
        r[i].columns[k].name != "__type__"@,
{
    reveal_strlit("__type__");
    reveal_strlit("source");
    reveal_strlit("target");
    if i == 0 {
        let c = r[0].columns;
        assert(c.to_multiset().contains(c[k]));
        let cand = column_candidates(ps);
        assert(cand.contains(c[k]));
        let q = choose|q: int| 0 <= q < cand.len() && cand[q] == c[k];
        lemma_filter_from(ps, |p: PointerView| is_column(p), q);
    } else {
        let j = i - 1;
        assert(r[j + 1] == join_table_spec(name, collections(ps)[j]));
        assert("source"@[0] != "__type__"@[0]);
        assert("target"@[0] != "__type__"@[0]);
    }
}

/// Registering imports is insensitive to order and to repetition, so the
/// header depends on what was registered alone.
pub proof fn import_order_is_irrelevant(s: Set<Import>, a: Import, b: Import)
    ensures
        s.insert(a).insert(b) == s.insert(b).insert(a),
        s.insert(a).insert(a) == s.insert(a),
        header_spec(s.insert(a).insert(b)) == header_spec(s.insert(b).insert(a)),
{
    assert(s.insert(a).insert(b) =~= s.insert(b).insert(a));
    assert(s.insert(a).insert(a) =~= s.insert(a));
}

/// No character of `w` is a separator, and all are ASCII.
pub open spec fn plain_ascii(w: Seq<char>) -> bool {
    forall|i: int| 0 <= i < w.len() ==> !is_name_sep(#[trigger] w[i]) && is_ascii_char(w[i])
}

pub open spec fn all_ascii(s: Seq<char>) -> bool {
    forall|i: int| 0 <= i < s.len() ==> is_ascii_char(#[trigger] s[i])
}

proof fn lemma_segments_plain(s: Seq<char>)
    requires
        all_ascii(s),
    ensures
        forall|k: int| 0 <= k < segments(s).len() ==> plain_ascii(#[trigger] segments(s)[k]),
    decreases s.len(),
{
    lemma_segments_len(s);
    if s.len() > 0 {
        let d = s.drop_last();
        assert(all_ascii(d)) by {
            assert forall|i: int| 0 <= i < d.len() implies is_ascii_char(#[trigger] d[i]) by {
                assert(s[i] == d[i]);
            }
        }
        lemma_segments_plain(d);
        lemma_segments_len(d);
        let r = segments(d);
        assert(is_ascii_char(s[s.len() - 1]));
        if !is_name_sep(s.last()) {
            let w = r.last().push(s.last());
            assert(plain_ascii(r[r.len() - 1]));
            assert(plain_ascii(w)) by {
                assert forall|i: int| 0 <= i < w.len() implies !is_name_sep(#[trigger] w[i]) && is_ascii_char(w[i]) by {
                    if i < w.len() - 1 {
                        assert(w[i] == r[r.len() - 1][i]);
                    }
                }
            }
        }
    }
}

proof fn lemma_segments_of_word(s: Seq<char>)
    requires
        forall|i: int| 0 <= i < s.len() ==> !is_name_sep(#[trigger] s[i]),
    ensures
        segments(s) == seq![s],
    decreases s.len(),
{
    if s.len() > 0 {
        let d = s.drop_last();
        assert forall|i: int| 0 <= i < d.len() implies !is_name_sep(#[trigger] d[i]) by {
            assert(s[i] == d[i]);
        }
        lemma_segments_of_word(d);
        assert(!is_name_sep(s[s.len() - 1]));
        assert(d.push(s.last()) =~= s);
        assert(segments(s) =~= seq![s]);
    } else {
        assert(s =~= Seq::<char>::empty());
    }
}

proof fn lemma_some_word(s: Seq<char>, i: int)
    requires
        0 <= i < s.len(),
        !is_name_sep(s[i]),
    ensures
        exists|k: int| 0 <= k < segments(s).len() && (#[trigger] segments(s)[k]).len() >= 1,
    decreases s.len(),
{
    let d = s.drop_last();
    lemma_segments_len(d);
    let r = segments(d);
    if i == s.len() - 1 {
        assert(segments(s)[r.len() - 1].len() >= 1);
    } else {
        assert(d[i] == s[i]);
        lemma_some_word(d, i);
        let k = choose|k: int| 0 <= k < r.len() && (#[trigger] r[k]).len() >= 1;
        assert(segments(s)[k].len() >= 1);
    }
}

proof fn lemma_first_word(segs: Seq<Seq<char>>, k: int)
    requires
        0 <= k < segs.len(),
        segs[k].len() >= 1,
    ensures
        exists|m: int| 0 <= m <= k && (#[trigger] segs[m]).len() >= 1 && leads(segs, m),
    decreases k,
{
    if !leads(segs, k) {
        let j = choose|j: int| 0 <= j < k && (#[trigger] segs[j]).len() != 0;
        lemma_first_word(segs, j);
    }
}

proof fn lemma_join_empty(parts: Seq<Seq<char>>)
    requires
        forall|j: int| 0 <= j < parts.len() ==> (#[trigger] parts[j]).len() == 0,
    ensures
        join_spec(parts, Seq::empty()).len() == 0,
    decreases parts.len(),
{
    if parts.len() > 1 {
        let d = parts.drop_last();
        assert forall|j: int| 0 <= j < d.len() implies (#[trigger] d[j]).len() == 0 by {
            assert(parts[j] == d[j]);
        }
        lemma_join_empty(d);
        assert(parts[parts.len() - 1].len() == 0);
    } else if parts.len() == 1 {
        assert(parts[0].len() == 0);
    }
}

proof fn lemma_join_first(parts: Seq<Seq<char>>, m: int)
    requires
        0 <= m < parts.len(),
        forall|j: int| 0 <= j < m ==> (#[trigger] parts[j]).len() == 0,
        parts[m].len() >= 1,
    ensures
        join_spec(parts, Seq::empty()).len() >= 1,
        join_spec(parts, Seq::empty())[0] == parts[m][0],
    decreases parts.len(),
{
    if parts.len() > 1 {
        let d = parts.drop_last();
        let a = join_spec(d, Seq::empty());
        let j = join_spec(parts, Seq::empty());
        assert(j =~= a + parts.last());
        if m < parts.len() - 1 {
            assert forall|q: int| 0 <= q < m implies (#[trigger] d[q]).len() == 0 by {
                assert(parts[q] == d[q]);
            }
            assert(d[m] == parts[m]);
            lemma_join_first(d, m);
        } else {
            assert forall|q: int| 0 <= q < d.len() implies (#[trigger] d[q]).len() == 0 by {
                assert(parts[q] == d[q]);
            }
            lemma_join_empty(d);
            assert(j =~= parts[m]);
        }
    }
}

proof fn lemma_cased_plain(w: Seq<char>, first: bool)
    requires
        plain_ascii(w),
    ensures
        plain_ascii(if first { crate::naming::lower_first_spec(w) } else { crate::naming::upper_first_spec(w) }),
{
    if w.len() > 0 {
        let c = w[0];
        assert(is_ascii_char(c) && !is_name_sep(c));
        let x = if first { crate::naming::lower_first_spec(w) } else { crate::naming::upper_first_spec(w) };
        assert forall|i: int| 0 <= i < x.len() implies !is_name_sep(#[trigger] x[i]) && is_ascii_char(x[i]) by {
            if i > 0 {
                assert(x[i] == w[i]);
            }
        }
    }
}

proof fn lemma_join_plain(parts: Seq<Seq<char>>)
    requires
        forall|k: int| 0 <= k < parts.len() ==> plain_ascii(#[trigger] parts[k]),
    ensures
        plain_ascii(join_spec(parts, Seq::empty())),
        parts.len() >= 1 && parts[0].len() >= 1 ==> join_spec(parts, Seq::empty()).len() >= 1
            && join_spec(parts, Seq::empty())[0] == parts[0][0],
    decreases parts.len(),
{
    if parts.len() > 1 {
        let d = parts.drop_last();
        assert forall|k: int| 0 <= k < d.len() implies plain_ascii(#[trigger] d[k]) by {
            assert(parts[k] == d[k]);
        }
        lemma_join_plain(d);
        let a = join_spec(d, Seq::empty());
        let b = parts.last();
        assert(plain_ascii(parts[parts.len() - 1]));
        let j = join_spec(parts, Seq::empty());
        assert(j =~= a + b);
        assert forall|i: int| 0 <= i < j.len() implies !is_name_sep(#[trigger] j[i]) && is_ascii_char(j[i]) by {
            if i < a.len() {
                assert(j[i] == a[i]);
            } else {
                assert(j[i] == b[i - a.len()]);
            }
        }
        if parts[0].len() >= 1 {
            assert(d[0] == parts[0]);
        }
    }
}

/// The camelCase form of an ASCII name holds no separator.
pub proof fn camel_case_has_no_separators(s: Seq<char>)
    requires
        all_ascii(s),
    ensures
        forall|i: int| 0 <= i < camel_spec(s).len() ==> !is_name_sep(#[trigger] camel_spec(s)[i]),
{
    lemma_segments_plain(s);
    let segs = segments(s);
    let cs = cased_segments(segs);
    assert forall|k: int| 0 <= k < cs.len() implies plain_ascii(#[trigger] cs[k]) by {
        lemma_cased_plain(segs[k], leads(segs, k));
    }
    lemma_join_plain(cs);
}

/// The camelCase form of an ASCII name that holds a character other than a
/// separator starts with a character that is not an upper-case letter.
pub proof fn camel_case_starts_lower(s: Seq<char>, i: int)
    requires
        all_ascii(s),
        0 <= i < s.len(),
        !is_name_sep(s[i]),
    ensures
        camel_spec(s).len() >= 1,
        !is_ascii_upper(camel_spec(s)[0]),
{
    lemma_segments_plain(s);
    lemma_segments_len(s);
    let segs = segments(s);
    let cs = cased_segments(segs);
    lemma_some_word(s, i);
    let k = choose|k: int| 0 <= k < segs.len() && (#[trigger] segs[k]).len() >= 1;
    lemma_first_word(segs, k);
    let m = choose|m: int| 0 <= m <= k && (#[trigger] segs[m]).len() >= 1 && leads(segs, m);
    assert forall|j: int| 0 <= j < m implies (#[trigger] cs[j]).len() == 0 by {
        assert(segs[j].len() == 0);
    }
    assert(plain_ascii(segs[m]));
    assert(is_ascii_char(segs[m][0]));
    assert(cs[m] == crate::naming::lower_first_spec(segs[m]));
    assert(cs[m][0] == ascii_lower(segs[m][0]));
    lemma_join_first(cs, m);
}

/// An ASCII name already in camelCase (no separator, first character not an
/// upper-case letter) is its own camelCase form.
pub proof fn camel_case_keeps_camel_case(s: Seq<char>)
    requires
        all_ascii(s),
        forall|i: int| 0 <= i < s.len() ==> !is_name_sep(#[trigger] s[i]),
        s.len() >= 1 ==> !is_ascii_upper(s[0]),
    ensures
        camel_spec(s) == s,
{
    lemma_segments_of_word(s);
    let cs = cased_segments(segments(s));
    assert(cs.len() == 1);
    if s.len() >= 1 {
        assert(is_ascii_char(s[0]));
        assert(char_lower(s[0]) == seq![s[0]]);
        assert(cs[0] =~= s);
    } else {
        assert(cs[0] =~= s);
    }
}

/// The imports after registering `regs` one after the other, as
/// `Context::import` records them.
pub open spec fn register_all(s: Set<Import>, regs: Seq<Import>) -> Set<Import>
    decreases regs.len(),
{
    if regs.len() == 0 {
        s
    } else {
        register_all(s, regs.drop_last()).insert(regs.last())
    }
}

proof fn lemma_register_all(s: Set<Import>, regs: Seq<Import>)
    ensures
        register_all(s, regs) == s.union(regs.to_set()),
    decreases regs.len(),
{
    if regs.len() > 0 {
        let d = regs.drop_last();
        lemma_register_all(s, d);
        assert forall|x: Import| regs.to_set().contains(x) <==> d.to_set().insert(regs.last()).contains(x) by {
            if regs.to_set().contains(x) && x != regs.last() {
                let i = choose|i: int| 0 <= i < regs.len() && regs[i] == x;
                assert(i != regs.len() - 1);
                assert(d[i] == x);
            }
            if d.to_set().contains(x) {
                let i = choose|i: int| 0 <= i < d.len() && d[i] == x;
                assert(regs[i] == x);
            }
            if x == regs.last() {
                assert(regs[regs.len() - 1] == x);
            }
        }
        assert(regs.to_set() =~= d.to_set().insert(regs.last()));
        assert(register_all(s, regs) =~= s.union(regs.to_set()));
    }
}

/// Registering the same imports in any order, with any repetition kept
/// alike, gives the same imports and so the same header.
pub proof fn import_registration_order_is_irrelevant(s: Set<Import>, r1: Seq<Import>, r2: Seq<Import>)
    requires
        r1.to_multiset() == r2.to_multiset(),
    ensures
        register_all(s, r1) == register_all(s, r2),
        header_spec(register_all(s, r1)) == header_spec(register_all(s, r2)),
{
    lemma_register_all(s, r1);
    lemma_register_all(s, r2);
    assert forall|x: Import| r1.to_set().contains(x) <==> r2.to_set().contains(x) by {
        assert(r1.to_multiset().contains(x) <==> r1.contains(x));
        assert(r2.to_multiset().contains(x) <==> r2.contains(x));
    }
    assert(r1.to_set() =~= r2.to_set());
}

proof fn lemma_map_multiset<A, B>(s: Seq<A>, t: Seq<A>, f: spec_fn(A) -> B)
    requires
        s.to_multiset() == t.to_multiset(),
    ensures
        s.map_values(f).to_multiset() == t.map_values(f).to_multiset(),
    decreases s.len(),
{
    vstd::seq_lib::to_multiset_len(s);
    vstd::seq_lib::to_multiset_len(t);
    if s.len() == 0 {
        assert(t.len() == 0);
        assert(s.map_values(f) =~= t.map_values(f));
    } else {
        let x = s.last();
        let d = s.drop_last();
        assert(s =~= d.push(x));
        assert(s[s.len() - 1] == x);
        vstd::seq_lib::to_multiset_contains(s, x);
        vstd::seq_lib::to_multiset_contains(t, x);
        assert(t.contains(x));
        let j = choose|j: int| 0 <= j < t.len() && t[j] == x;
        let t1 = t.remove(j);
        vstd::seq_lib::to_multiset_remove(t, j);
        assert(d.to_multiset() =~= t1.to_multiset());
        lemma_map_multiset(d, t1, f);
        assert(s.map_values(f) =~= d.map_values(f).push(f(x)));
        assert(t1.map_values(f) =~= t.map_values(f).remove(j));
        vstd::seq_lib::to_multiset_remove(t.map_values(f), j);
        assert(t.map_values(f).to_multiset() =~= t1.map_values(f).to_multiset().insert(f(x)));
    }
}

/// Reordering a type's pointers only reorders its join tables: each keeps
/// its name and columns.
pub proof fn join_tables_ignore_pointer_order(
    name: Seq<char>,
    ps1: Seq<PointerView>,
    ps2: Seq<PointerView>,
    r1: Seq<TableView>,
    r2: Seq<TableView>,
)
    requires
        ps1.to_multiset() == ps2.to_multiset(),
        is_table_split(name, ps1, r1),
        is_table_split(name, ps2, r2),
    ensures
        r1.skip(1).to_multiset() == r2.skip(1).to_multiset(),
{
    let f = |p: PointerView| is_collection(p);
    lemma_filter_multiset(ps1, ps2, f);
    let g = |p: PointerView| join_table_spec(name, p);
    lemma_map_multiset(collections(ps1), collections(ps2), g);
    assert(r1.skip(1) =~= collections(ps1).map_values(g)) by {
        assert forall|i: int| 0 <= i < r1.skip(1).len() implies r1.skip(1)[i] == collections(ps1).map_values(g)[i] by {
            assert(r1[i + 1] == join_table_spec(name, collections(ps1)[i]));
        }
    }
    assert(r2.skip(1) =~= collections(ps2).map_values(g)) by {
        assert forall|i: int| 0 <= i < r2.skip(1).len() implies r2.skip(1)[i] == collections(ps2).map_values(g)[i] by {
            assert(r2[i + 1] == join_table_spec(name, collections(ps2)[i]));
        }
    }
}

proof fn lemma_columns_fail(table: Seq<char>, cs: Seq<PointerView>, k: int)
    requires
        0 <= k < cs.len(),
        column_type_out(cs[k]) is Err,
    ensures
        columns_out(table, cs) is Err,
    decreases cs.len(),
{
    if k < cs.len() - 1 {
        let d = cs.drop_last();
        assert(d[k] == cs[k]);
        lemma_columns_fail(table, d, k);
    } else {
        assert(cs.last() == cs[k]);
    }
}

proof fn lemma_columns_error(table: Seq<char>, cs: Seq<PointerView>)
    ensures
        columns_out(table, cs) matches Err(e) ==> exists|k: int|
            0 <= k < cs.len() && e.table == table && e.column == (#[trigger] cs[k]).name
                && column_type_out(cs[k]) == Err::<(Seq<char>, Set<Import>), GenerateErrorView>(e.cause),
    decreases cs.len(),
{
    if cs.len() > 0 {
        let d = cs.drop_last();
        lemma_columns_error(table, d);
        if columns_out(table, d) is Err {
            let e = columns_out(table, d)->Err_0;
            let k = choose|k: int|
                0 <= k < d.len() && e.table == table && e.column == (#[trigger] d[k]).name
                    && column_type_out(d[k]) == Err::<(Seq<char>, Set<Import>), GenerateErrorView>(e.cause);
            assert(cs[k] == d[k]);
        } else {
            assert(cs[cs.len() - 1] == cs.last());
        }
    }
}

proof fn lemma_tables_fail(ts: Seq<TableView>, q: Option<Seq<char>>, i: int, k: int)
    requires
        0 <= i < ts.len(),
        0 <= k < ts[i].columns.len(),
        column_type_out(ts[i].columns[k]) is Err,
    ensures
        tables_out(ts, q) is Err,
    decreases ts.len(),
{
    if i < ts.len() - 1 {
        let d = ts.drop_last();
        assert(d[i] == ts[i]);
        lemma_tables_fail(d, q, i, k);
    } else {
        assert(ts.last() == ts[i]);
        lemma_columns_fail(ts[i].name, ts[i].columns, k);
    }
}

proof fn lemma_tables_error(ts: Seq<TableView>, q: Option<Seq<char>>)
    ensures
        tables_out(ts, q) matches Err(e) ==> exists|i: int, k: int|
            0 <= i < ts.len() && 0 <= k < ts[i].columns.len() && e.table == ts[i].name
                && e.column == (#[trigger] ts[i].columns[k]).name
                && column_type_out(ts[i].columns[k]) == Err::<(Seq<char>, Set<Import>), GenerateErrorView>(e.cause),
    decreases ts.len(),
{
    if ts.len() > 0 {
        let d = ts.drop_last();
        lemma_tables_error(d, q);
        if tables_out(d, q) is Err {
            let e = tables_out(d, q)->Err_0;
            let (i, k) = choose|i: int, k: int|
                0 <= i < d.len() && 0 <= k < d[i].columns.len() && e.table == d[i].name
                    && e.column == (#[trigger] d[i].columns[k]).name
                    && column_type_out(d[i].columns[k]) == Err::<(Seq<char>, Set<Import>), GenerateErrorView>(e.cause);
            assert(ts[i] == d[i]);
        } else {
            let t = ts.last();
            assert(ts[ts.len() - 1] == t);
            lemma_columns_error(t.name, t.columns);
        }
    }
}

/// A column whose scalar type has no column type stops the whole unit: no
/// text comes out, and the error names a failing table, column and type.
pub proof fn unmapped_scalar_stops_the_unit(path: Seq<Seq<char>>, ts: Seq<TableView>, i: int, k: int)
    requires
        0 <= i < ts.len(),
        0 <= k < ts[i].columns.len(),
        column_type_out(ts[i].columns[k]) is Err,
    ensures
        unit_spec(path, ts) is Err,
        unit_spec(path, ts) matches Err(e) ==> exists|a: int, b: int|
            0 <= a < ts.len() && 0 <= b < ts[a].columns.len() && e.table == ts[a].name
                && e.column == (#[trigger] ts[a].columns[b]).name
                && column_type_out(ts[a].columns[b]) == Err::<(Seq<char>, Set<Import>), GenerateErrorView>(e.cause),
{
    lemma_tables_fail(ts, qualifier_spec(path), i, k);
    lemma_tables_error(ts, qualifier_spec(path));
}

} // verus!
