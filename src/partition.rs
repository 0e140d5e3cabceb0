//! Folds a flat list of namespace-qualified object types into a tree of
//! modules, converting each module's own types into tables.
use vstd::prelude::*;
use crate::{Module, ObjectType, ObjectTypeView, Table, TableView, table_views};
use crate::path::{first_sep, lemma_first_sep_from_bound, path_pop_front};
use crate::text::{str_lt, views};
use crate::transform::{collections, compare_names, is_table_split, object_type_to_table};

verus! {

broadcast use vstd::seq_lib::group_to_multiset_ensures;

pub open spec fn ot_views(v: Seq<ObjectType>) -> Seq<ObjectTypeView> {
    v.map_values(|o: ObjectType| o@)
}

/// The type belongs to the current module: its name has no separator.
pub open spec fn is_local(o: ObjectTypeView) -> bool {
    first_sep(o.name) is None
}

/// The first segment of a qualified name.
pub open spec fn key_of(o: ObjectTypeView) -> Seq<char> {
    o.name.take(first_sep(o.name)->Some_0)
}

/// The type with the first segment of its name split off.
pub open spec fn strip(o: ObjectTypeView) -> ObjectTypeView {
    ObjectTypeView { name: o.name.skip(first_sep(o.name)->Some_0 + 2), ptrs: o.ptrs }
}

/// The types that belong to the current module, in input order.
pub open spec fn locals(ots: Seq<ObjectTypeView>) -> Seq<ObjectTypeView>
    decreases ots.len(),
{
    if ots.len() == 0 {
        Seq::empty()
    } else if is_local(ots.last()) {
        locals(ots.drop_last()).push(ots.last())
    } else {
        locals(ots.drop_last())
    }
}

/// The types under child `key`, with that segment split off, in input order.
pub open spec fn group(ots: Seq<ObjectTypeView>, key: Seq<char>) -> Seq<ObjectTypeView>
    decreases ots.len(),
{
    if ots.len() == 0 {
        Seq::empty()
    } else if !is_local(ots.last()) && key_of(ots.last()) == key {
        group(ots.drop_last(), key).push(strip(ots.last()))
    } else {
        group(ots.drop_last(), key)
    }
}

pub open spec fn has_key(ots: Seq<ObjectTypeView>, key: Seq<char>) -> bool {
    exists|i: int| 0 <= i < ots.len() && !is_local(ots[i]) && key_of(ots[i]) == key
}

/// `ts` is the table splits of `ls`, one after the other.
pub open spec fn concat_splits(ls: Seq<ObjectTypeView>, ts: Seq<TableView>) -> bool
    decreases ls.len(),
{
    if ls.len() == 0 {
        ts.len() == 0
    } else {
        let n = 1 + collections(ls.last().ptrs).len();
        ts.len() >= n && concat_splits(ls.drop_last(), ts.take(ts.len() - n))
            && is_table_split(ls.last().name, ls.last().ptrs, ts.skip(ts.len() - n))
    }
}

/// The types named `n`, in their order.
pub open spec fn named(ls: Seq<ObjectTypeView>, n: Seq<char>) -> Seq<ObjectTypeView> {
    ls.filter(|o: ObjectTypeView| o.name == n)
}

pub open spec fn sorted_by_name(ls: Seq<ObjectTypeView>) -> bool {
    forall|i: int, j: int| 0 <= i < j < ls.len() ==> !str_lt(#[trigger] ls[j].name, #[trigger] ls[i].name)
}

/// `m` is the module of types `ots` at `path`: its own tables are the table
/// splits of its local types sorted by name; it has one child per first
/// segment among the other types, at the path extended by that segment, which
/// is in turn the module of the types under it. Local types of equal name
/// keep their input order.
pub open spec fn is_partition(m: Module, ots: Seq<ObjectTypeView>, path: Seq<Seq<char>>, fuel: nat) -> bool
    decreases fuel,
{
    let subs = m.submodules@;
    &&& views(m.path@) == path
    &&& exists|ls: Seq<ObjectTypeView>|
        ls.to_multiset() == locals(ots).to_multiset() && sorted_by_name(ls) && (forall|n: Seq<char>|
            #[trigger] named(ls, n) == named(locals(ots), n)) && concat_splits(ls, table_views(m.tables@))
    &&& forall|i: int|
        0 <= i < subs.len() ==> views((#[trigger] subs[i]).path@).len() == path.len() + 1
            && views(subs[i].path@).take(path.len() as int) == path
    &&& forall|i: int, j: int|
        0 <= i < j < subs.len() ==> views((#[trigger] subs[i]).path@).last() != views(
            (#[trigger] subs[j]).path@,
        ).last()
    &&& forall|key: Seq<char>|
        has_key(ots, key) <==> exists|i: int|
            0 <= i < subs.len() && views((#[trigger] subs[i]).path@).last() == key
    &&& if fuel == 0 {
        subs.len() == 0
    } else {
        forall|i: int|
            0 <= i < subs.len() ==> is_partition(
                #[trigger] subs[i],
                group(ots, views(subs[i].path@).last()),
                views(subs[i].path@),
                (fuel - 1) as nat,
            )
    }
}

pub open spec fn names_within(ots: Seq<ObjectTypeView>, b: int) -> bool {
    forall|i: int| 0 <= i < ots.len() ==> (#[trigger] ots[i]).name.len() <= b
}

proof fn lemma_group_names(ots: Seq<ObjectTypeView>, key: Seq<char>, b: int)
    requires
        names_within(ots, b),
    ensures
        names_within(group(ots, key), b - 2),
    decreases ots.len(),
{
    if ots.len() > 0 {
        let d = ots.drop_last();
        assert(names_within(d, b)) by {
            assert forall|i: int| 0 <= i < d.len() implies (#[trigger] d[i]).name.len() <= b by {
                assert(d[i] == ots[i]);
            }
        }
        lemma_group_names(d, key, b);
        let o = ots.last();
        assert(o == ots[ots.len() - 1]);
        lemma_first_sep_from_bound(o.name, 0);
    }
}

proof fn lemma_no_keys_when_empty(ots: Seq<ObjectTypeView>, key: Seq<char>)
    requires
        names_within(ots, 0),
    ensures
        !has_key(ots, key),
{
    assert forall|i: int| 0 <= i < ots.len() implies is_local(#[trigger] ots[i]) by {
        lemma_first_sep_from_bound(ots[i].name, 0);
    }
}

/// Relies on `slice::sort_by` with `compare_names` on the names: the items
/// come out as a permutation of those that went in, ordered by name, and
/// the sort is stable, so items of equal name keep their order.
#[verifier::external_body]
fn sort_by_name(v: Vec<ObjectType>) -> (r: Vec<ObjectType>)
    ensures
        ot_views(r@).to_multiset() == ot_views(v@).to_multiset(),
        sorted_by_name(ot_views(r@)),
        forall|n: Seq<char>| #[trigger] named(ot_views(r@), n) == named(ot_views(v@), n),
{
    let mut v = v;
    v.sort_by(|a, b| compare_names(&a.name, &b.name));
    v
}

fn clone_path(path: &Vec<String>) -> (r: Vec<String>)
    ensures
        views(r@) == views(path@),
{
    let mut r: Vec<String> = Vec::new();
    let mut i: usize = 0;
    while i < path.len()
        invariant
            i <= path@.len(),
            r@.len() == i,
            views(r@) == views(path@).take(i as int),
        decreases path@.len() - i,
    {
        r.push(path[i].clone());
        proof {
            assert(views(r@) =~= views(path@).take(i as int + 1));
        }
        i = i + 1;
    }
    proof {
        assert(views(path@).take(i as int) =~= views(path@));
    }
    r
}

/// Splits the types into those local to this module and, per first segment,
/// those under a child.
fn split_types(object_types: Vec<ObjectType>) -> (r: (Vec<ObjectType>, Vec<String>, Vec<Vec<ObjectType>>))
    ensures
        ot_views(r.0@) == locals(ot_views(object_types@)),
        r.1@.len() == r.2@.len(),
        views(r.1@).no_duplicates(),
        forall|g: int| 0 <= g < r.1@.len() ==> ot_views((#[trigger] r.2@[g])@) == group(
            ot_views(object_types@),
            r.1@[g]@,
        ),
        forall|key: Seq<char>| has_key(ot_views(object_types@), key) <==> views(r.1@).contains(key),
{
    let ghost ots = ot_views(object_types@);
    let mut rest = object_types;
    let mut local_types: Vec<ObjectType> = Vec::new();
    let mut keys: Vec<String> = Vec::new();
    let mut members: Vec<Vec<ObjectType>> = Vec::new();
    let mut k: usize = 0;
    let total = rest.len();
    while rest.len() > 0
        invariant
            k <= ots.len(),
            ots.len() == total,
            ot_views(rest@) == ots.skip(k as int),
            ot_views(local_types@) == locals(ots.take(k as int)),
            keys@.len() == members@.len(),
            views(keys@).no_duplicates(),
            forall|g: int| 0 <= g < keys@.len() ==> ot_views((#[trigger] members@[g])@) == group(
                ots.take(k as int),
                keys@[g]@,
            ),
            forall|key: Seq<char>| has_key(ots.take(k as int), key) <==> views(keys@).contains(key),
        decreases rest@.len(),
    {
        let ghost old_rest = rest@;
        let o = rest.remove(0);
        let ghost ov = o@;
        let ghost pre = ots.take(k as int);
        let ghost post = ots.take(k as int + 1);
        proof {
            assert(ot_views(old_rest).len() == old_rest.len());
            assert(ot_views(old_rest)[0] == ov);
            assert(ots.skip(k as int)[0] == ov);
            assert(post.drop_last() =~= pre);
            assert(post.last() == ov);
            assert(rest@ =~= old_rest.subrange(1, old_rest.len() as int));
            assert(ot_views(rest@) =~= ots.skip(k as int + 1)) by {
                assert forall|j: int| 0 <= j < rest@.len() implies ot_views(rest@)[j] == ots.skip(k as int + 1)[j] by {
                    assert(ot_views(old_rest)[j + 1] == ots.skip(k as int)[j + 1]);
                }
            }
            assert forall|key: Seq<char>| has_key(post, key) <==> (has_key(pre, key) || (!is_local(ov) && key_of(ov) == key)) by {
                if has_key(post, key) {
                    let i = choose|i: int| 0 <= i < post.len() && !is_local(post[i]) && key_of(post[i]) == key;
                    if i < pre.len() {
                        assert(pre[i] == post[i]);
                    }
                }
                if has_key(pre, key) {
                    let i = choose|i: int| 0 <= i < pre.len() && !is_local(pre[i]) && key_of(pre[i]) == key;
                    assert(pre[i] == post[i]);
                }
                if !is_local(ov) && key_of(ov) == key {
                    assert(post[k as int] == ov);
                }
            }
        }
        let ObjectType { name, ptrs } = o;
        match path_pop_front(name) {
            Ok((first, remaining)) => {
                let stripped = ObjectType { name: remaining, ptrs };
                proof {
                    assert(stripped@ == strip(ov));
                    assert(first@ == key_of(ov));
                }
                let mut found: Option<usize> = None;
                let mut j: usize = 0;
                while j < keys.len()
                    invariant
                        j <= keys@.len(),
                        found matches Some(x) ==> x < keys@.len() && keys@[x as int]@ == first@,
                        found is None ==> forall|q: int| 0 <= q < j ==> keys@[q]@ != first@,
                    decreases keys@.len() - j,
                {
                    if found.is_none() && keys[j].eq(&first) {
                        found = Some(j);
                    }
                    j = j + 1;
                }
                let ghost old_keys = keys@;
                let ghost old_members = members@;
                match found {
                    Some(x) => {
                        let mut g = members.remove(x);
                        let ghost gv = ot_views(g@);
                        g.push(stripped);
                        members.insert(x, g);
                        proof {
                            assert(ot_views(members@[x as int]@) =~= gv.push(strip(ov)));
                            assert forall|q: int| 0 <= q < keys@.len() implies ot_views((#[trigger] members@[q])@) == group(post, keys@[q]@) by {
                                if q != x as int {
                                    assert(members@[q] == old_members[q]);
                                    assert(keys@[q]@ != first@) by {
                                        assert(views(keys@)[q] != views(keys@)[x as int]);
                                    }
                                }
                            }
                            assert(views(keys@).contains(first@)) by {
                                assert(views(keys@)[x as int] == first@);
                            }
                        }
                    },
                    None => {
                        let ghost kv = first@;
                        keys.push(first);
                        members.push(vec![stripped]);
                        proof {
                            assert(views(keys@) =~= views(old_keys).push(kv));
                            assert(!views(old_keys).contains(kv)) by {
                                if views(old_keys).contains(kv) {
                                    let q = choose|q: int| 0 <= q < old_keys.len() && views(old_keys)[q] == kv;
                                    assert(old_keys[q]@ == kv);
                                }
                            }
                            assert(!has_key(pre, kv));
                            assert(group(pre, kv) =~= Seq::<ObjectTypeView>::empty()) by {
                                lemma_group_empty(pre, kv);
                            }
                            assert(ot_views(members@[old_keys.len() as int]@) =~= seq![strip(ov)]);
                            assert forall|q: int| 0 <= q < keys@.len() implies ot_views((#[trigger] members@[q])@) == group(post, keys@[q]@) by {
                                if q < old_keys.len() {
                                    assert(members@[q] == old_members[q]);
                                    assert(keys@[q]@ != kv) by {
                                        assert(views(old_keys)[q] == old_keys[q]@);
                                    }
                                }
                            }
                            assert forall|key: Seq<char>| has_key(post, key) <==> views(keys@).contains(key) by {
                                if views(keys@).contains(key) && key != kv {
                                    let q = choose|q: int| 0 <= q < keys@.len() && views(keys@)[q] == key;
                                    assert(views(old_keys)[q] == key);
                                }
                                if key == kv {
                                    assert(views(keys@)[old_keys.len() as int] == kv);
                                }
                                if views(old_keys).contains(key) {
                                    let q = choose|q: int| 0 <= q < old_keys.len() && views(old_keys)[q] == key;
                                    assert(views(keys@)[q] == key);
                                }
                            }
                        }
                    },
                }
                proof {
                    assert(locals(post) == locals(pre));
                }
            },
            Err(only) => {
                let ghost before = ot_views(local_types@);
                local_types.push(ObjectType { name: only, ptrs });
                proof {
                    assert(ot_views(local_types@) =~= before.push(ov));
                    assert forall|q: int| 0 <= q < keys@.len() implies ot_views((#[trigger] members@[q])@) == group(post, keys@[q]@) by {}
                }
            },
        }
        k = k + 1;
    }
    proof {
        assert(ots.take(k as int) =~= ots);
    }
    (local_types, keys, members)
}

proof fn lemma_group_empty(ots: Seq<ObjectTypeView>, key: Seq<char>)
    requires
        !has_key(ots, key),
    ensures
        group(ots, key).len() == 0,
    decreases ots.len(),
{
    if ots.len() > 0 {
        let d = ots.drop_last();
        assert(!has_key(d, key)) by {
            if has_key(d, key) {
                let i = choose|i: int| 0 <= i < d.len() && !is_local(d[i]) && key_of(d[i]) == key;
                assert(ots[i] == d[i]);
            }
        }
        lemma_group_empty(d, key);
        assert(ots[ots.len() - 1] == ots.last());
    }
}

fn partition_rec(object_types: Vec<ObjectType>, path: Vec<String>, Ghost(bound): Ghost<nat>) -> (r: Module)
    requires
        names_within(ot_views(object_types@), bound as int),
    ensures
        is_partition(r, ot_views(object_types@), views(path@), bound),
    decreases bound,
{
    let ghost ots = ot_views(object_types@);
    let ghost pv = views(path@);
    let (local_types, mut keys, mut members) = split_types(object_types);
    let ghost keys0 = views(keys@);
    let n = keys.len();
    proof {
        if bound == 0 && n > 0 {
            assert(keys0.contains(keys0[0]));
            lemma_no_keys_when_empty(ots, keys0[0]);
        }
    }
    let mut subs: Vec<Module> = Vec::new();
    while keys.len() > 0
        invariant
            keys@.len() == members@.len(),
            keys@.len() + subs@.len() == n,
            n == keys0.len(),
            keys0.no_duplicates(),
            views(keys@) == keys0.take(keys@.len() as int),
            pv == views(path@),
            names_within(ots, bound as int),
            n > 0 ==> bound > 0,
            forall|key: Seq<char>| has_key(ots, key) <==> keys0.contains(key),
            forall|g: int| 0 <= g < keys@.len() ==> ot_views((#[trigger] members@[g])@) == group(ots, keys@[g]@),
            forall|i: int|
                0 <= i < subs@.len() ==> views((#[trigger] subs@[i]).path@) == pv.push(keys0[n - 1 - i])
                    && is_partition(subs@[i], group(ots, keys0[n - 1 - i]), views(subs@[i].path@), (bound - 1) as nat),
        decreases keys@.len(),
    {
        let ghost m = keys@.len() - 1;
        let ghost ko = keys@;
        let ghost mo = members@;
        let key = keys.pop().unwrap();
        let grp = members.pop().unwrap();
        proof {
            assert(ko[m] == key);
            assert(views(ko)[m] == key@);
            assert(key@ == keys0[m]);
            assert(mo[m] == grp);
            assert(views(keys@) =~= views(ko).take(m));
            lemma_group_names(ots, key@, bound as int);
        }
        let ghost kv = key@;
        let mut child_path = clone_path(&path);
        child_path.push(key);
        proof {
            assert(views(child_path@) =~= pv.push(kv));
            assert(views(keys@) =~= keys0.take(m));
        }
        let child = partition_rec(grp, child_path, Ghost((bound - 1) as nat));
        subs.push(child);
        proof {
            assert(n - 1 - (subs@.len() - 1) == m);
        }
    }
    let sorted = sort_by_name(local_types);
    let ghost lsv = ot_views(sorted@);
    let mut rest = sorted;
    let mut tables: Vec<Table> = Vec::new();
    let mut j: usize = 0;
    let total = rest.len();
    while rest.len() > 0
        invariant
            j <= lsv.len(),
            lsv.len() == total,
            ot_views(rest@) == lsv.skip(j as int),
            concat_splits(lsv.take(j as int), table_views(tables@)),
        decreases rest@.len(),
    {
        let ghost old_rest = rest@;
        let ghost old_tables = table_views(tables@);
        let o = rest.remove(0);
        proof {
            assert(ot_views(old_rest).len() == old_rest.len());
            assert(ot_views(old_rest)[0] == o@);
            assert(lsv.skip(j as int)[0] == o@);
            assert(lsv.take(j as int + 1).drop_last() =~= lsv.take(j as int));
            assert(lsv.take(j as int + 1).last() == o@);
            assert(rest@ =~= old_rest.subrange(1, old_rest.len() as int));
            assert(ot_views(rest@) =~= lsv.skip(j as int + 1)) by {
                assert forall|q: int| 0 <= q < rest@.len() implies ot_views(rest@)[q] == lsv.skip(j as int + 1)[q] by {
                    assert(ot_views(old_rest)[q + 1] == lsv.skip(j as int)[q + 1]);
                }
            }
        }
        let mut split = object_type_to_table(o);
        let ghost sv = table_views(split@);
        tables.append(&mut split);
        proof {
            let tv = table_views(tables@);
            assert(tv =~= old_tables + sv);
            assert(tv.take(tv.len() - sv.len()) =~= old_tables);
            assert(tv.skip(tv.len() - sv.len()) =~= sv);
        }
        j = j + 1;
    }
    proof {
        assert(lsv.take(j as int) =~= lsv);
    }
    let r = Module { path, tables, submodules: subs };
    proof {
        let sb = r.submodules@;
        assert forall|i: int| 0 <= i < sb.len() implies views((#[trigger] sb[i]).path@).len() == pv.len() + 1
            && views(sb[i].path@).take(pv.len() as int) == pv by {
            assert(views(sb[i].path@).take(pv.len() as int) =~= pv);
        }
        assert forall|i: int, k: int| 0 <= i < k < sb.len() implies views((#[trigger] sb[i]).path@).last()
            != views((#[trigger] sb[k]).path@).last() by {
            assert(views(sb[i].path@).last() == keys0[n - 1 - i]);
            assert(views(sb[k].path@).last() == keys0[n - 1 - k]);
        }
        assert forall|key: Seq<char>| has_key(ots, key) <==> exists|i: int|
            0 <= i < sb.len() && views((#[trigger] sb[i]).path@).last() == key by {
            if has_key(ots, key) {
                let q = choose|q: int| 0 <= q < keys0.len() && keys0[q] == key;
                let i = n - 1 - q;
                assert(views(sb[i].path@).last() == key);
            }
            if exists|i: int| 0 <= i < sb.len() && views((#[trigger] sb[i]).path@).last() == key {
                let i = choose|i: int| 0 <= i < sb.len() && views((#[trigger] sb[i]).path@).last() == key;
                assert(keys0[n - 1 - i] == key);
                assert(keys0.contains(key));
            }
        }
        if bound > 0 {
            assert forall|i: int| 0 <= i < sb.len() implies is_partition(
                #[trigger] sb[i],
                group(ots, views(sb[i].path@).last()),
                views(sb[i].path@),
                (bound - 1) as nat,
            ) by {
                assert(views(sb[i].path@).last() == keys0[n - 1 - i]);
            }
        }
        assert(is_partition(r, ots, pv, bound));
    }
    r
}

/// The longest name among the types.
fn longest_name(object_types: &Vec<ObjectType>) -> (r: usize)
    ensures
        names_within(ot_views(object_types@), r as int),
{
    let mut r: usize = 0;
    let mut i: usize = 0;
    while i < object_types.len()
        invariant
            i <= object_types@.len(),
            forall|q: int| 0 <= q < i ==> (#[trigger] object_types@[q]).name@.len() <= r,
        decreases object_types@.len() - i,
    {
        let n = object_types[i].name.as_str().unicode_len();
        if n > r {
            r = n;
        }
        i = i + 1;
    }
    proof {
        assert forall|q: int| 0 <= q < object_types@.len() implies (#[trigger] ot_views(object_types@)[q]).name.len() <= r by {
            assert(ot_views(object_types@)[q] == object_types@[q]@);
        }
    }
    r
}

/// The module at `path` of the given types, with its tree of submodules:
/// a type whose name has no separator belongs to this module, any other to
/// the child named by its first segment, with that segment split off.
pub fn partition_into_modules(object_types: Vec<ObjectType>, path: Vec<String>) -> (r: Module)
    ensures
        exists|fuel: nat| is_partition(r, ot_views(object_types@), views(path@), fuel),
{
    let bound = longest_name(&object_types);
    let ghost ots = ot_views(object_types@);
    let r = partition_rec(object_types, path, Ghost(bound as nat));
    proof {
        assert(is_partition(r, ots, views(path@), bound as nat));
    }
    r
}

proof fn lemma_locals_contains(ots: Seq<ObjectTypeView>, i: int)
    requires
        0 <= i < ots.len(),
        is_local(ots[i]),
    ensures
        locals(ots).contains(ots[i]),
    decreases ots.len(),
{
    let d = ots.drop_last();
    if i == ots.len() - 1 {
        assert(locals(ots).last() == ots[i]);
        assert(locals(ots)[locals(ots).len() - 1] == ots[i]);
    } else {
        assert(d[i] == ots[i]);
        lemma_locals_contains(d, i);
        let k = choose|k: int| 0 <= k < locals(d).len() && locals(d)[k] == ots[i];
        if is_local(ots.last()) {
            assert(locals(ots)[k] == ots[i]);
        }
    }
}

proof fn lemma_group_contains(ots: Seq<ObjectTypeView>, i: int)
    requires
        0 <= i < ots.len(),
        !is_local(ots[i]),
    ensures
        group(ots, key_of(ots[i])).contains(strip(ots[i])),
    decreases ots.len(),
{
    let d = ots.drop_last();
    let key = key_of(ots[i]);
    if i == ots.len() - 1 {
        assert(group(ots, key)[group(ots, key).len() - 1] == strip(ots[i]));
    } else {
        assert(d[i] == ots[i]);
        lemma_group_contains(d, i);
        let k = choose|k: int| 0 <= k < group(d, key).len() && group(d, key)[k] == strip(ots[i]);
        if !is_local(ots.last()) && key_of(ots.last()) == key {
            assert(group(ots, key)[k] == strip(ots[i]));
        }
    }
}

/// Partitioning loses no type and places none twice, level by level: a
/// type whose name has no separator is among the module's own types; any
/// other goes to exactly one child, the one named by its first segment,
/// whose input holds it with that segment split off.
pub proof fn partition_places_each_type_once(
    m: Module,
    ots: Seq<ObjectTypeView>,
    path: Seq<Seq<char>>,
    fuel: nat,
    i: int,
)
    requires
        is_partition(m, ots, path, fuel),
        0 <= i < ots.len(),
    ensures
        is_local(ots[i]) ==> locals(ots).contains(ots[i]),
        !is_local(ots[i]) ==> exists|c: int|
            0 <= c < m.submodules@.len() && views((#[trigger] m.submodules@[c]).path@).last() == key_of(ots[i])
                && group(ots, views(m.submodules@[c].path@).last()).contains(strip(ots[i]))
                && forall|d: int|
                    0 <= d < m.submodules@.len() && views((#[trigger] m.submodules@[d]).path@).last()
                        == key_of(ots[i]) ==> d == c,
{
    let subs = m.submodules@;
    if is_local(ots[i]) {
        lemma_locals_contains(ots, i);
    } else {
        let key = key_of(ots[i]);
        assert(has_key(ots, key));
        let c = choose|c: int| 0 <= c < subs.len() && views((#[trigger] subs[c]).path@).last() == key;
        lemma_group_contains(ots, i);
        assert forall|d: int|
            0 <= d < subs.len() && views((#[trigger] subs[d]).path@).last() == key implies d == c by {
            if d < c {
                assert(views(subs[d].path@).last() != views(subs[c].path@).last());
            } else if c < d {
                assert(views(subs[c].path@).last() != views(subs[d].path@).last());
            }
        }
    }
}

/// The child segment names of a list of submodules.
pub open spec fn child_keys(subs: Seq<Module>) -> Seq<Seq<char>> {
    subs.map_values(|c: Module| views(c.path@).last())
}

/// How many types the groups of the given keys hold together.
pub open spec fn key_total(keys: Seq<Seq<char>>, ots: Seq<ObjectTypeView>) -> int
    decreases keys.len(),
{
    if keys.len() == 0 {
        0
    } else {
        key_total(keys.drop_last(), ots) + group(ots, keys.last()).len()
    }
}

proof fn lemma_key_total_step(keys: Seq<Seq<char>>, ots: Seq<ObjectTypeView>)
    requires
        ots.len() > 0,
        keys.no_duplicates(),
    ensures
        key_total(keys, ots) == key_total(keys, ots.drop_last()) + if !is_local(ots.last()) && keys.contains(
            key_of(ots.last()),
        ) {
            1int
        } else {
            0int
        },
    decreases keys.len(),
{
    if keys.len() > 0 {
        let d = keys.drop_last();
        assert(d.no_duplicates()) by {
            assert forall|i: int, j: int| 0 <= i < j < d.len() implies d[i] != d[j] by {
                assert(keys[i] == d[i] && keys[j] == d[j]);
            }
        }
        lemma_key_total_step(d, ots);
        let o = ots.last();
        if !is_local(o) {
            let k = key_of(o);
            if keys.contains(k) && keys.last() != k {
                let q = choose|q: int| 0 <= q < keys.len() && keys[q] == k;
                assert(d[q] == k);
            }
            if d.contains(k) {
                let q = choose|q: int| 0 <= q < d.len() && d[q] == k;
                assert(keys[q] == k);
                assert(keys[keys.len() - 1] != keys[q]);
            }
            if keys.last() == k {
                assert(keys[keys.len() - 1] == k);
            }
        }
    }
}

proof fn lemma_key_total_empty(keys: Seq<Seq<char>>, ots: Seq<ObjectTypeView>)
    requires
        ots.len() == 0,
    ensures
        key_total(keys, ots) == 0,
    decreases keys.len(),
{
    if keys.len() > 0 {
        lemma_key_total_empty(keys.drop_last(), ots);
    }
}

proof fn lemma_counts(keys: Seq<Seq<char>>, ots: Seq<ObjectTypeView>)
    requires
        keys.no_duplicates(),
        forall|k: Seq<char>| has_key(ots, k) ==> keys.contains(k),
    ensures
        locals(ots).len() + key_total(keys, ots) == ots.len(),
    decreases ots.len(),
{
    if ots.len() == 0 {
        lemma_key_total_empty(keys, ots);
    } else {
        let d = ots.drop_last();
        assert forall|k: Seq<char>| has_key(d, k) implies keys.contains(k) by {
            let i = choose|i: int| 0 <= i < d.len() && !is_local(d[i]) && key_of(d[i]) == k;
            assert(ots[i] == d[i]);
            assert(has_key(ots, k));
        }
        lemma_counts(keys, d);
        lemma_key_total_step(keys, ots);
        let o = ots.last();
        if !is_local(o) {
            assert(ots[ots.len() - 1] == o);
            assert(has_key(ots, key_of(o)));
        }
    }
}

/// Partitioning neither loses nor duplicates a type: the module's own types
/// and the inputs of its children together hold exactly as many types as
/// were given.
pub proof fn partition_counts_every_type_once(m: Module, ots: Seq<ObjectTypeView>, path: Seq<Seq<char>>, fuel: nat)
    requires
        is_partition(m, ots, path, fuel),
    ensures
        locals(ots).len() + key_total(child_keys(m.submodules@), ots) == ots.len(),
{
    let subs = m.submodules@;
    let keys = child_keys(subs);
    assert(keys.no_duplicates()) by {
        assert forall|i: int, j: int| 0 <= i < keys.len() && 0 <= j < keys.len() && i != j implies keys[i] != keys[j] by {
            if i < j {
                assert(views(subs[i].path@).last() != views(subs[j].path@).last());
            } else {
                assert(views(subs[j].path@).last() != views(subs[i].path@).last());
            }
        }
    }
    assert forall|k: Seq<char>| has_key(ots, k) implies keys.contains(k) by {
        let c = choose|c: int| 0 <= c < subs.len() && views((#[trigger] subs[c]).path@).last() == k;
        assert(keys[c] == k);
    }
    lemma_counts(keys, ots);
}

} // verus!
