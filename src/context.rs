//! The per-unit emitter state: indentation depth and the symbols to import.
use vstd::prelude::*;
use crate::text::{join_strings, join_spec, sort_strings, str_lt, strictly_sorted, views,
    lemma_str_lt_asym, lemma_str_lt_total, lemma_strictly_sorted_unique};

verus! {

broadcast use vstd::seq_lib::group_to_multiset_ensures;

/// Accumulates what one generated unit needs: the current nesting depth and,
/// for each external module, the symbols imported from it.
#[derive(Debug)]
pub struct Context {
    indent: usize,
    /// (module, symbol) pairs, each at most once.
    imports: Vec<(String, String)>,
}

pub struct ContextView {
    pub indent: nat,
    pub imports: Set<(Seq<char>, Seq<char>)>,
}

pub open spec fn pair_views(v: Seq<(String, String)>) -> Seq<(Seq<char>, Seq<char>)> {
    v.map_values(|p: (String, String)| (p.0@, p.1@))
}

impl View for Context {
    type V = ContextView;

    closed spec fn view(&self) -> ContextView {
        ContextView { indent: self.indent as nat, imports: pair_views(self.imports@).to_set() }
    }
}

/// A line break followed by two spaces for each level of nesting.
pub open spec fn new_line_spec(indent: nat) -> Seq<char>
    decreases indent,
{
    if indent == 0 {
        seq!['\n']
    } else {
        new_line_spec((indent - 1) as nat) + seq![' ', ' ']
    }
}

/// The strings of a finite set in ascending order.
pub open spec fn sorted_set(s: Set<Seq<char>>) -> Seq<Seq<char>> {
    choose|q: Seq<Seq<char>>| strictly_sorted(q, |a: Seq<char>, b: Seq<char>| str_lt(a, b)) && q.to_set() == s
}

pub open spec fn modules_of(s: Set<(Seq<char>, Seq<char>)>) -> Set<Seq<char>> {
    s.map(|p: (Seq<char>, Seq<char>)| p.0)
}

pub open spec fn symbols_of(s: Set<(Seq<char>, Seq<char>)>, m: Seq<char>) -> Set<Seq<char>> {
    s.filter(|p: (Seq<char>, Seq<char>)| p.0 == m).map(|p: (Seq<char>, Seq<char>)| p.1)
}

/// The imports grouped by module, modules in ascending order, and the
/// symbols of each module in ascending order.
pub open spec fn import_groups(s: Set<(Seq<char>, Seq<char>)>) -> Seq<(Seq<char>, Seq<Seq<char>>)> {
    sorted_set(modules_of(s)).map_values(|m: Seq<char>| (m, sorted_set(symbols_of(s, m))))
}

pub open spec fn group_views(v: Seq<(String, Vec<String>)>) -> Seq<(Seq<char>, Seq<Seq<char>>)> {
    v.map_values(|g: (String, Vec<String>)| (g.0@, views(g.1@)))
}

/// One import statement.
pub open spec fn import_line(m: Seq<char>, symbols: Seq<Seq<char>>) -> Seq<char> {
    "import { "@ + join_spec(symbols, ", "@) + " } from '"@ + m + "';\n"@
}

pub open spec fn import_lines(groups: Seq<(Seq<char>, Seq<Seq<char>>)>) -> Seq<char>
    decreases groups.len(),
{
    if groups.len() == 0 {
        Seq::empty()
    } else {
        import_lines(groups.drop_last()) + import_line(groups.last().0, groups.last().1)
    }
}

/// The import header of a unit: one statement per module, in order.
pub open spec fn header_spec(s: Set<(Seq<char>, Seq<char>)>) -> Seq<char> {
    import_lines(import_groups(s))
}

/// A sequence without repeats, sorted ascending, is the sorted form of its set.
proof fn lemma_sorted_is_sorted_set(q: Seq<Seq<char>>)
    requires
        q.no_duplicates(),
        forall|i: int, j: int| 0 <= i < j < q.len() ==> !str_lt(#[trigger] q[j], #[trigger] q[i]),
    ensures
        sorted_set(q.to_set()) == q,
{
    let lt = |a: Seq<char>, b: Seq<char>| str_lt(a, b);
    assert forall|i: int, j: int| 0 <= i < j < q.len() implies #[trigger] lt(q[i], q[j]) by {
        lemma_str_lt_total(q[i], q[j]);
    }
    assert forall|x: Seq<char>, y: Seq<char>| #[trigger] lt(x, y) implies !lt(y, x) by {
        lemma_str_lt_asym(x, y);
    }
    let c = sorted_set(q.to_set());
    assert(strictly_sorted(c, lt) && c.to_set() == q.to_set());
    lemma_strictly_sorted_unique(c, q, lt);
}

/// Sorts strings that are pairwise distinct.
fn sorted_distinct(v: Vec<String>) -> (r: Vec<String>)
    requires
        views(v@).no_duplicates(),
    ensures
        views(r@) == sorted_set(views(v@).to_set()),
{
    let r = sort_strings(v);
    proof {
        let a = views(v@);
        let b = views(r@);
        assert(b.to_multiset() == a.to_multiset());
        a.lemma_multiset_has_no_duplicates();
        assert forall|x| b.to_multiset().count(x) <= 1 by {}
        b.lemma_multiset_has_no_duplicates_conv();
        assert forall|x| a.to_set().contains(x) <==> b.to_set().contains(x) by {
            assert(a.to_multiset().contains(x) <==> a.contains(x));
            assert(b.to_multiset().contains(x) <==> b.contains(x));
        }
        assert(a.to_set() =~= b.to_set());
        assert forall|i: int, j: int| 0 <= i < j < b.len() implies !str_lt(#[trigger] b[j], #[trigger] b[i]) by {
            assert(!str_lt(r@[j]@, r@[i]@));
        }
        lemma_sorted_is_sorted_set(b);
    }
    r
}

/// The distinct modules named by the pairs.
fn distinct_modules(pairs: &Vec<(String, String)>) -> (r: Vec<String>)
    ensures
        views(r@).no_duplicates(),
        views(r@).to_set() == modules_of(pair_views(pairs@).to_set()),
{
    let ghost pv = pair_views(pairs@);
    let mut r: Vec<String> = Vec::new();
    let mut i: usize = 0;
    while i < pairs.len()
        invariant
            i <= pairs@.len(),
            pv == pair_views(pairs@),
            views(r@).no_duplicates(),
            forall|x: Seq<char>| views(r@).contains(x) <==> exists|k: int| 0 <= k < i && #[trigger] pv[k].0 == x,
        decreases pairs@.len() - i,
    {
        let m = &pairs[i].0;
        assert(pv[i as int].0 == m@);
        let mut present = false;
        let mut j: usize = 0;
        while j < r.len()
            invariant
                j <= r@.len(),
                present <==> exists|k: int| 0 <= k < j && views(r@)[k] == m@,
            decreases r@.len() - j,
        {
            let same = r[j].eq(m);
            assert(views(r@)[j as int] == r@[j as int]@);
            if same {
                present = true;
            }
            j = j + 1;
        }
        if !present {
            let ghost old_r = views(r@);
            r.push(m.clone());
            proof {
                assert(views(r@) =~= old_r.push(m@));
                assert forall|x: Seq<char>| views(r@).contains(x) <==> exists|k: int| 0 <= k < i + 1 && #[trigger] pv[k].0 == x by {
                    if views(r@).contains(x) && x != m@ {
                        let k = choose|k: int| 0 <= k < views(r@).len() && views(r@)[k] == x;
                        assert(old_r[k] == x);
                        assert(old_r.contains(x));
                    }
                    if exists|k: int| 0 <= k < i + 1 && #[trigger] pv[k].0 == x {
                        let k = choose|k: int| 0 <= k < i + 1 && #[trigger] pv[k].0 == x;
                        if k < i {
                            assert(old_r.contains(x));
                            let q = choose|q: int| 0 <= q < old_r.len() && old_r[q] == x;
                            assert(views(r@)[q] == x);
                        } else {
                            assert(views(r@)[old_r.len() as int] == x);
                        }
                    }
                }
            }
        } else {
            proof {
                let q = choose|q: int| 0 <= q < r@.len() && views(r@)[q] == m@;
                assert(views(r@).contains(m@));
            }
        }
        i = i + 1;
    }
    proof {
        let a = views(r@).to_set();
        let b = modules_of(pv.to_set());
        assert forall|x: Seq<char>| a.contains(x) <==> b.contains(x) by {
            if a.contains(x) {
                let k = choose|k: int| 0 <= k < i && #[trigger] pv[k].0 == x;
                assert(pv.to_set().contains(pv[k]));
            }
            if b.contains(x) {
                let p = choose|p: (Seq<char>, Seq<char>)| pv.to_set().contains(p) && p.0 == x;
                let k = choose|k: int| 0 <= k < pv.len() && pv[k] == p;
                assert(pv[k].0 == x);
            }
        }
        assert(a =~= b);
    }
    r
}

/// The symbols that the pairs import from module `m`.
fn symbols_for(pairs: &Vec<(String, String)>, m: &String) -> (r: Vec<String>)
    requires
        pair_views(pairs@).no_duplicates(),
    ensures
        views(r@).no_duplicates(),
        views(r@).to_set() == symbols_of(pair_views(pairs@).to_set(), m@),
{
    let ghost pv = pair_views(pairs@);
    let mut r: Vec<String> = Vec::new();
    let mut i: usize = 0;
    while i < pairs.len()
        invariant
            i <= pairs@.len(),
            pv == pair_views(pairs@),
            pv.no_duplicates(),
            views(r@).no_duplicates(),
            forall|x: Seq<char>| views(r@).contains(x) <==> exists|k: int| 0 <= k < i && #[trigger] pv[k] == (m@, x),
        decreases pairs@.len() - i,
    {
        let same = pairs[i].0.eq(m);
        assert(pv[i as int] == (pairs@[i as int].0@, pairs@[i as int].1@));
        if same {
            let ghost old_r = views(r@);
            let ghost x0 = pairs@[i as int].1@;
            r.push(pairs[i].1.clone());
            proof {
                assert(views(r@) =~= old_r.push(x0));
                if old_r.contains(x0) {
                    let k = choose|k: int| 0 <= k < i && #[trigger] pv[k] == (m@, x0);
                    assert(pv[k] == pv[i as int]);
                }
                assert forall|x: Seq<char>| views(r@).contains(x) <==> exists|k: int| 0 <= k < i + 1 && #[trigger] pv[k] == (m@, x) by {
                    if views(r@).contains(x) && x != x0 {
                        let k = choose|k: int| 0 <= k < views(r@).len() && views(r@)[k] == x;
                        assert(old_r[k] == x);
                        assert(old_r.contains(x));
                    }
                    if exists|k: int| 0 <= k < i + 1 && #[trigger] pv[k] == (m@, x) {
                        let k = choose|k: int| 0 <= k < i + 1 && #[trigger] pv[k] == (m@, x);
                        if k < i {
                            assert(old_r.contains(x));
                            let q = choose|q: int| 0 <= q < old_r.len() && old_r[q] == x;
                            assert(views(r@)[q] == x);
                        } else {
                            assert(views(r@)[old_r.len() as int] == x);
                        }
                    }
                }
            }
        }
        i = i + 1;
    }
    proof {
        let a = views(r@).to_set();
        let b = symbols_of(pv.to_set(), m@);
        assert forall|x: Seq<char>| a.contains(x) <==> b.contains(x) by {
            if a.contains(x) {
                let k = choose|k: int| 0 <= k < i && #[trigger] pv[k] == (m@, x);
                assert(pv.to_set().contains(pv[k]));
                assert(pv.to_set().filter(|p: (Seq<char>, Seq<char>)| p.0 == m@).contains(pv[k]));
            }
            if b.contains(x) {
                let p = choose|p: (Seq<char>, Seq<char>)| pv.to_set().filter(|p: (Seq<char>, Seq<char>)| p.0 == m@).contains(p) && p.1 == x;
                let k = choose|k: int| 0 <= k < pv.len() && pv[k] == p;
                assert(pv[k] == (m@, x));
            }
        }
        assert(a =~= b);
    }
    r
}

impl Default for Context {
    fn default() -> (r: Context)
        ensures
            r.wf(),
            r@.indent == 0,
            r@.imports == Set::<(Seq<char>, Seq<char>)>::empty(),
    {
        Context::new()
    }
}

impl Context {
    pub closed spec fn wf(&self) -> bool {
        pair_views(self.imports@).no_duplicates()
    }

    /// The imports, grouped by module: modules in ascending order, each
    /// with its symbols in ascending order and without repeats.
    pub fn imports(&self) -> (r: Vec<(String, Vec<String>)>)
        requires
            self.wf(),
        ensures
            group_views(r@) == import_groups(self@.imports),
    {
        let ghost s = self@.imports;
        let mods = distinct_modules(&self.imports);
        let mods = sorted_distinct(mods);
        let mut r: Vec<(String, Vec<String>)> = Vec::new();
        let mut j: usize = 0;
        while j < mods.len()
            invariant
                j <= mods@.len(),
                s == pair_views(self.imports@).to_set(),
                pair_views(self.imports@).no_duplicates(),
                views(mods@) == sorted_set(modules_of(s)),
                r@.len() == j,
                group_views(r@) == import_groups(s).take(j as int),
            decreases mods@.len() - j,
        {
            let syms0 = symbols_for(&self.imports, &mods[j]);
            let syms = sorted_distinct(syms0);
            let ghost old_r = group_views(r@);
            r.push((mods[j].clone(), syms));
            proof {
                assert(views(mods@)[j as int] == mods@[j as int]@);
                let m = mods@[j as int]@;
                assert(views(syms@) == sorted_set(symbols_of(s, m)));
                assert(import_groups(s).len() == mods@.len());
                assert(import_groups(s)[j as int] == (m, sorted_set(symbols_of(s, m))));
                assert(group_views(r@)[j as int] == (m, views(syms@)));
                assert(group_views(r@) =~= import_groups(s).take(j as int + 1));
            }
            j = j + 1;
        }
        proof {
            assert(import_groups(s).take(j as int) =~= import_groups(s));
        }
        r
    }

    /// The import header: one statement per module, modules in ascending
    /// order, symbols in ascending order and each once.
    pub fn render_imports(&self) -> (r: String)
        requires
            self.wf(),
        ensures
            r@ == header_spec(self@.imports),
    {
        let groups = self.imports();
        let ghost g = group_views(groups@);
        let mut r = String::new();
        let mut j: usize = 0;
        while j < groups.len()
            invariant
                j <= groups@.len(),
                g == group_views(groups@),
                r@ == import_lines(g.take(j as int)),
            decreases groups@.len() - j,
        {
            r.append("import { ");
            let symbols = join_strings(&groups[j].1, ", ");
            r.append(symbols.as_str());
            r.append(" } from '");
            r.append(groups[j].0.as_str());
            r.append("';\n");
            proof {
                assert(g.take(j as int + 1).drop_last() =~= g.take(j as int));
                assert(g[j as int] == (groups@[j as int].0@, views(groups@[j as int].1@)));
                assert(r@ =~= import_lines(g.take(j as int + 1)));
            }
            j = j + 1;
        }
        proof {
            assert(g.take(j as int) =~= g);
        }
        r
    }

    /// An empty context at nesting depth zero.
    pub fn new() -> (r: Context)
        ensures
            r.wf(),
            r@.indent == 0,
            r@.imports == Set::<(Seq<char>, Seq<char>)>::empty(),
    {
        let r = Context { indent: 0, imports: Vec::new() };
        proof {
            assert(pair_views(r.imports@).to_set() =~= Set::empty());
        }
        r
    }

    /// Enters one level of nesting.
    pub fn indent(&mut self)
        requires
            old(self)@.indent < usize::MAX,
        ensures
            final(self)@.indent == old(self)@.indent + 1,
            final(self)@.imports == old(self)@.imports,
            final(self).wf() == old(self).wf(),
    {
        self.indent = self.indent + 1;
    }

    /// Leaves one level of nesting.
    pub fn dedent(&mut self)
        requires
            old(self)@.indent > 0,
        ensures
            final(self)@.indent == old(self)@.indent - 1,
            final(self)@.imports == old(self)@.imports,
            final(self).wf() == old(self).wf(),
    {
        self.indent = self.indent - 1;
    }

    /// A line break followed by the indentation of the current depth.
    pub fn new_line(&self) -> (r: String)
        ensures
            r@ == new_line_spec(self@.indent),
    {
        let mut r = String::from_str("\n");
        let mut i: usize = 0;
        proof {
            reveal_strlit("\n");
        }
        while i < self.indent
            invariant
                i <= self.indent,
                r@ == new_line_spec(i as nat),
            decreases self.indent - i,
        {
            r.append("  ");
            proof {
                reveal_strlit("  ");
            }
            i = i + 1;
        }
        r
    }

    /// Records that `name` is imported from `module`, and hands `name` back
    /// for the caller to write where the symbol is used.
    pub fn import(&mut self, module: &str, name: &str) -> (r: String)
        requires
            old(self).wf(),
        ensures
            r@ == name@,
            final(self).wf(),
            final(self)@.imports == old(self)@.imports.insert((module@, name@)),
            final(self)@.indent == old(self)@.indent,
    {
        let ghost pv = pair_views(self.imports@);
        let module_s = String::from_str(module);
        let name_s = String::from_str(name);
        let mut found = false;
        let mut i: usize = 0;
        while i < self.imports.len()
            invariant
                i <= self.imports@.len(),
                pv == pair_views(self.imports@),
                module_s@ == module@,
                name_s@ == name@,
                found <==> exists|k: int| 0 <= k < i && pv[k] == (module@, name@),
            decreases self.imports@.len() - i,
        {
            let same_module = self.imports[i].0.eq(&module_s);
            let same_name = self.imports[i].1.eq(&name_s);
            assert(pv[i as int] == (self.imports@[i as int].0@, self.imports@[i as int].1@));
            if same_module && same_name {
                found = true;
                assert(pv[i as int] == (module@, name@));
            }
            i = i + 1;
        }
        if !found {
            self.imports.push((module_s, String::from_str(name)));
            proof {
                let nv = pair_views(self.imports@);
                assert(nv =~= pv.push((module@, name@)));
                assert forall|x| nv.to_set().contains(x) <==> pv.to_set().insert((module@, name@)).contains(x) by {
                    if nv.to_set().contains(x) {
                        let k = choose|k: int| 0 <= k < nv.len() && nv[k] == x;
                        if k < pv.len() {
                            assert(pv[k] == x);
                        }
                    }
                    if pv.to_set().contains(x) {
                        let k = choose|k: int| 0 <= k < pv.len() && pv[k] == x;
                        assert(nv[k] == x);
                    }
                    if x == (module@, name@) {
                        assert(nv[pv.len() as int] == x);
                    }
                }
                assert(nv.to_set() =~= pv.to_set().insert((module@, name@)));
            }
        } else {
            proof {
                let k = choose|k: int| 0 <= k < i && pv[k] == (module@, name@);
                assert(pv.to_set().contains(pv[k]));
                assert(pv.to_set() =~= pv.to_set().insert((module@, name@)));
            }
        }
        String::from_str(name)
    }
}

} // verus!
