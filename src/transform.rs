//! Turns one object type into its primary table and its join tables.
use vstd::prelude::*;
use std::cmp::Ordering;
use itertools::Itertools;
use crate::{Cardinality, ObjectType, Pointer, PointerView, Table, TableView, pointer_views,
    table_views};
use crate::text::str_lt;

verus! {

broadcast use vstd::seq_lib::group_to_multiset_ensures;

/// The rank of a column name: `id` first, then `source`, then `target`, then
/// everything else.
pub open spec fn priority_spec(name: Seq<char>) -> u8 {
    if name == "id"@ {
        0
    } else if name == "__type__"@ {
        1
    } else if name == "source"@ {
        2
    } else if name == "target"@ {
        3
    } else {
        4
    }
}

/// Column order: by rank, then by name.
pub open spec fn ptr_lt(a: PointerView, b: PointerView) -> bool {
    priority_spec(a.name) < priority_spec(b.name) || (priority_spec(a.name) == priority_spec(b.name)
        && str_lt(a.name, b.name))
}

pub open spec fn column_sorted(q: Seq<PointerView>) -> bool {
    forall|i: int, j: int| 0 <= i < j < q.len() ==> !ptr_lt(#[trigger] q[j], #[trigger] q[i])
}

/// A pointer that becomes a column of the primary table.
pub open spec fn is_column(p: PointerView) -> bool {
    p.cardinality == Cardinality::One && p.name != "__type__"@
}

pub open spec fn is_collection(p: PointerView) -> bool {
    p.cardinality == Cardinality::Many
}

pub open spec fn column_candidates(ps: Seq<PointerView>) -> Seq<PointerView> {
    ps.filter(|p: PointerView| is_column(p))
}

pub open spec fn collections(ps: Seq<PointerView>) -> Seq<PointerView> {
    ps.filter(|p: PointerView| is_collection(p))
}

/// The join table of collection pointer `p` of the type named `owner`.
pub open spec fn join_table_spec(owner: Seq<char>, p: PointerView) -> TableView {
    TableView {
        name: owner + "."@ + p.name,
        columns: seq![
            PointerView {
                name: "source"@,
                target_name: owner,
                is_link: true,
                cardinality: Cardinality::One,
                required: true,
                default: None,
            },
            PointerView {
                name: "target"@,
                target_name: p.target_name,
                is_link: p.is_link,
                cardinality: Cardinality::One,
                required: true,
                default: None,
            },
        ],
    }
}

/// `r` is the table split of object type `t`: first the primary table,
/// named after the type, whose columns are the single-valued pointers but
/// `__type__`, in column order; then one join table per collection pointer,
/// in the order of the pointers.
pub open spec fn is_table_split(name: Seq<char>, ptrs: Seq<PointerView>, r: Seq<TableView>) -> bool {
    &&& r.len() == 1 + collections(ptrs).len()
    &&& r[0].name == name
    &&& r[0].columns.to_multiset() == column_candidates(ptrs).to_multiset()
    &&& column_sorted(r[0].columns)
    &&& forall|i: int| 0 <= i < collections(ptrs).len() ==> #[trigger] r[i + 1] == join_table_spec(
        name,
        collections(ptrs)[i],
    )
}

fn same(a: &String, b: &str) -> (r: bool)
    ensures
        r == (a@ == b@),
{
    a.eq(&String::from_str(b))
}

/// The rank of a pointer's name in column order.
pub fn ptr_priority(ptr: &Pointer) -> (r: u8)
    ensures
        r == priority_spec(ptr.name@),
{
    if same(&ptr.name, "id") {
        0
    } else if same(&ptr.name, "__type__") {
        1
    } else if same(&ptr.name, "source") {
        2
    } else if same(&ptr.name, "target") {
        3
    } else {
        4
    }
}

/// Compares two names character by character, by code point.
pub(crate) fn compare_names(a: &String, b: &String) -> (r: Ordering)
    ensures
        (r == Ordering::Less) == str_lt(a@, b@),
        (r == Ordering::Equal) == (a@ == b@),
        (r == Ordering::Greater) == str_lt(b@, a@),
{
    let sa = a.as_str();
    let sb = b.as_str();
    let la = sa.unicode_len();
    let lb = sb.unicode_len();
    let mut i: usize = 0;
    proof {
        assert(a@.skip(0) =~= a@);
        assert(b@.skip(0) =~= b@);
    }
    while i < la && i < lb
        invariant
            i <= la,
            i <= lb,
            la == a@.len(),
            lb == b@.len(),
            sa@ == a@,
            sb@ == b@,
            str_lt(a@, b@) == str_lt(a@.skip(i as int), b@.skip(i as int)),
            str_lt(b@, a@) == str_lt(b@.skip(i as int), a@.skip(i as int)),
            (a@ == b@) == (a@.skip(i as int) == b@.skip(i as int)),
        decreases la - i,
    {
        let ca = sa.get_char(i);
        let cb = sb.get_char(i);
        let ghost x = a@.skip(i as int);
        let ghost y = b@.skip(i as int);
        proof {
            assert(x[0] == ca && y[0] == cb);
        }
        if ca < cb {
            proof {
                assert(x != y);
            }
            return Ordering::Less;
        }
        if cb < ca {
            proof {
                assert(x != y);
            }
            return Ordering::Greater;
        }
        proof {
            assert(x.drop_first() =~= a@.skip(i as int + 1));
            assert(y.drop_first() =~= b@.skip(i as int + 1));
            assert(x =~= seq![x[0]] + x.drop_first());
            assert(y =~= seq![y[0]] + y.drop_first());
            if x.drop_first() != y.drop_first() {
                assert(x != y) by {
                    if x == y {
                        assert(x.drop_first() == y.drop_first());
                    }
                }
            }
        }
        i = i + 1;
    }
    proof {
        assert(a@.skip(i as int).len() == 0 || b@.skip(i as int).len() == 0);
        if la == lb {
            assert(a@.skip(i as int) =~= b@.skip(i as int));
        } else {
            assert(a@.skip(i as int) != b@.skip(i as int));
        }
    }
    if la == lb {
        Ordering::Equal
    } else if i == la {
        Ordering::Less
    } else {
        Ordering::Greater
    }
}

/// Column order of two pointers: by rank, then by name.
pub fn pointer_ordering(a: &Pointer, b: &Pointer) -> (r: Ordering)
    ensures
        (r == Ordering::Less) == ptr_lt(a@, b@),
        (r == Ordering::Greater) == ptr_lt(b@, a@),
        (r == Ordering::Equal) == (priority_spec(a.name@) == priority_spec(b.name@) && a.name@ == b.name@),
{
    let pa = ptr_priority(a);
    let pb = ptr_priority(b);
    if pa < pb {
        Ordering::Less
    } else if pa > pb {
        Ordering::Greater
    } else {
        compare_names(&a.name, &b.name)
    }
}

/// Relies on itertools' `sorted_by` with `pointer_ordering`: a stable sort,
/// so the items come out as a permutation of those that went in, in
/// column order.
#[verifier::external_body]
fn sort_columns(v: Vec<Pointer>) -> (r: Vec<Pointer>)
    ensures
        pointer_views(r@).to_multiset() == pointer_views(v@).to_multiset(),
        column_sorted(pointer_views(r@)),
{
    v.into_iter().sorted_by(pointer_ordering).collect()
}

/// The primary table of an object type and one join table per collection
/// pointer, the primary table first.
pub fn object_type_to_table(t: ObjectType) -> (r: Vec<Table>)
    ensures
        is_table_split(t@.name, t@.ptrs, table_views(r@)),
{
    let ghost ps = t@.ptrs;
    let ObjectType { name, ptrs } = t;
    let mut rest = ptrs;
    let mut joins: Vec<Table> = Vec::new();
    let mut cols: Vec<Pointer> = Vec::new();
    let mut k: usize = 0;
    let total = rest.len();
    while rest.len() > 0
        invariant
            k <= ps.len(),
            ps.len() == total,
            pointer_views(rest@) == ps.skip(k as int),
            pointer_views(cols@) == column_candidates(ps.take(k as int)),
            table_views(joins@) == collections(ps.take(k as int)).map_values(
                |p: PointerView| join_table_spec(name@, p),
            ),
        decreases rest@.len(),
    {
        let ghost old_rest = rest@;
        let ptr = rest.remove(0);
        let ghost pv = ptr@;
        proof {
            assert(pointer_views(old_rest).len() == old_rest.len());
            assert(k < ps.len());
            assert(pointer_views(old_rest)[0] == pv);
            assert(ps.skip(k as int)[0] == pv);
            assert(ps[k as int] == pv);
            assert(ps.take(k as int + 1) =~= ps.take(k as int).push(pv));
            assert(ps.take(k as int + 1).drop_last() =~= ps.take(k as int));
            assert(ps.take(k as int + 1).last() == pv);
            reveal(Seq::filter);
            assert(column_candidates(ps.take(k as int + 1)) == if is_column(pv) {
                column_candidates(ps.take(k as int)).push(pv)
            } else {
                column_candidates(ps.take(k as int))
            });
            assert(collections(ps.take(k as int + 1)) == if is_collection(pv) {
                collections(ps.take(k as int)).push(pv)
            } else {
                collections(ps.take(k as int))
            });
            assert(rest@ =~= old_rest.subrange(1, old_rest.len() as int));
            assert(pointer_views(rest@) =~= ps.skip(k as int + 1)) by {
                assert forall|j: int| 0 <= j < rest@.len() implies pointer_views(rest@)[j] == ps.skip(k as int + 1)[j] by {
                    assert(pointer_views(old_rest)[j + 1] == ps.skip(k as int)[j + 1]);
                }
            }
        }
        if ptr.cardinality == Cardinality::Many {
            let mut table_name = name.clone();
            table_name.append(".");
            table_name.append(ptr.name.as_str());
            let source = Pointer {
                name: String::from_str("source"),
                target_name: name.clone(),
                is_link: true,
                cardinality: Cardinality::One,
                required: true,
                default: None,
            };
            let target = Pointer {
                name: String::from_str("target"),
                target_name: ptr.target_name,
                is_link: ptr.is_link,
                cardinality: Cardinality::One,
                required: true,
                default: None,
            };
            let ghost before = table_views(joins@);
            let table = Table { name: table_name, columns: vec![source, target] };
            proof {
                assert(table@.columns =~= join_table_spec(name@, pv).columns);
            }
            joins.push(table);
            proof {
                assert(table_views(joins@) =~= before.push(join_table_spec(name@, pv)));
                assert(table_views(joins@) =~= collections(ps.take(k as int + 1)).map_values(
                    |p: PointerView| join_table_spec(name@, p),
                ));
            }
        } else if !same(&ptr.name, "__type__") {
            let ghost before = pointer_views(cols@);
            cols.push(ptr);
            proof {
                assert(pointer_views(cols@) =~= before.push(pv));
            }
        }
        k = k + 1;
    }
    proof {
        assert(ps.take(k as int) =~= ps);
    }
    let columns = sort_columns(cols);
    let mut r = joins;
    let ghost jv = table_views(r@);
    r.insert(0, Table { name, columns });
    proof {
        let rv = table_views(r@);
        assert(rv.len() == 1 + collections(ps).len());
        assert forall|i: int| 0 <= i < collections(ps).len() implies #[trigger] rv[i + 1] == join_table_spec(
            name@,
            collections(ps)[i],
        ) by {
            assert(rv[i + 1] == jv[i]);
        }
    }
    r
}

} // verus!
