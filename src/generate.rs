//! Renders the tables of one namespace as a unit of source text.
use vstd::prelude::*;
use crate::{GenerateErrorView, Module, Pointer, PointerView, Table, TableView, UnitError, UnitErrorView,
    pointer_views, table_views};
use crate::context::{Context, header_spec, new_line_spec};
use crate::naming::{camel_case, camel_spec, generate_table_var_name};
use crate::path::{last_segment, path_last};
use crate::text::{join_spec, join_strings, views};
use crate::vocabulary::{ScalarKind, generate_type_ref, pg_core, type_ref_spec};

verus! {

/// An import: (module, symbol).
pub type Import = (Seq<char>, Seq<char>);

/// Text and the imports it needs, or the error that stops generation.
pub type Out = Result<(Seq<char>, Set<Import>), UnitErrorView>;

/// What a column declares as its type and the import it needs, or why it
/// has none.
pub type TypeOut = Result<(Seq<char>, Set<Import>), GenerateErrorView>;

pub open spec fn orm() -> Seq<char> {
    "drizzle-orm"@
}

/// The variable that holds a table.
pub open spec fn table_var_spec(name: Seq<char>) -> Seq<char> {
    camel_spec(name) + "Table"@
}

/// The namespace path as a database schema name: segments joined by `::`,
/// with the root namespace `default` written `public`.
pub open spec fn schema_spec(path: Seq<Seq<char>>) -> Seq<char> {
    join_spec(schema_segments(path), "::"@)
}

pub open spec fn schema_segment(s: Seq<char>) -> Seq<char> {
    if s == "default"@ {
        "public"@
    } else {
        s
    }
}

pub open spec fn schema_segments(path: Seq<Seq<char>>) -> Seq<Seq<char>> {
    path.map_values(|s: Seq<char>| schema_segment(s))
}

/// The schema that qualifies the tables: the path joined by `::`, omitted
/// where that is the root namespace `default`.
pub open spec fn qualifier_spec(path: Seq<Seq<char>>) -> Option<Seq<char>> {
    if join_spec(path, "::"@) == "default"@ {
        None
    } else {
        Some(join_spec(path, "::"@))
    }
}

/// What a column declares as its type.
pub open spec fn column_type_out(c: PointerView) -> TypeOut {
    if c.is_link {
        Ok((c.name + "_id: "@ + "uuid"@ + "()"@, set![(pg_core(), "uuid"@)]))
    } else {
        match type_ref_spec(c.target_name) {
            Ok((text, imp)) => Ok((c.name + ": "@ + text, set![imp])),
            Err(ScalarKind::Unimplemented) => Err(GenerateErrorView::UnimplementedScalarType(c.target_name)),
            Err(_) => Err(GenerateErrorView::UnknownScalarType(c.target_name)),
        }
    }
}

/// One column declaration of table `table`, on its own line at depth one.
pub open spec fn column_out(table: Seq<char>, c: PointerView) -> Out {
    match column_type_out(c) {
        Err(e) => Err(UnitErrorView { table, column: c.name, cause: e }),
        Ok((head, imps)) => {
            let req = if c.required { ".notNull()"@ } else { Seq::empty() };
            let def = match c.default {
                Some(d) => ".default("@ + "sql"@ + ".raw(\""@ + d + "\"))"@,
                None => Seq::empty(),
            };
            let def_imps = match c.default {
                Some(d) => set![(orm(), "sql"@)],
                None => Set::empty(),
            };
            let refs = if c.is_link {
                ".references(() => "@ + table_var_spec(last_segment(c.target_name)) + ".id)"@
            } else {
                Seq::empty()
            };
            Ok((new_line_spec(1) + head + req + def + refs + ","@, imps.union(def_imps)))
        },
    }
}

/// The column declarations in order; the first error stops.
pub open spec fn columns_out(table: Seq<char>, cs: Seq<PointerView>) -> Out
    decreases cs.len(),
{
    if cs.len() == 0 {
        Ok((Seq::empty(), Set::empty()))
    } else {
        match columns_out(table, cs.drop_last()) {
            Err(e) => Err(e),
            Ok((t, i)) => match column_out(table, cs.last()) {
                Err(e) => Err(e),
                Ok((t2, i2)) => Ok((t + t2, i.union(i2))),
            },
        }
    }
}

/// The relation entry of one link column of table `name`.
pub open spec fn relation_entry(name: Seq<char>, l: PointerView) -> Seq<char> {
    let target = table_var_spec(last_segment(l.target_name));
    new_line_spec(1) + l.name + ": one("@ + target + ", {"@ + new_line_spec(2) + "fields: ["@
        + table_var_spec(name) + "."@ + l.name + "_id],"@ + new_line_spec(2) + "references: ["@
        + target + ".id],"@ + new_line_spec(1) + "}),"@
}

/// The relation entries of the link columns, in order.
pub open spec fn relation_entries(name: Seq<char>, cs: Seq<PointerView>) -> Seq<char>
    decreases cs.len(),
{
    if cs.len() == 0 {
        Seq::empty()
    } else {
        relation_entries(name, cs.drop_last()) + if cs.last().is_link {
            relation_entry(name, cs.last())
        } else {
            Seq::empty()
        }
    }
}

pub open spec fn has_link(cs: Seq<PointerView>) -> bool {
    exists|i: int| 0 <= i < cs.len() && (#[trigger] cs[i]).is_link
}

/// The relations block of a table: present where it has a link column.
pub open spec fn relations_spec(t: TableView) -> Seq<char> {
    if has_link(t.columns) {
        "\nexport const "@ + camel_spec(t.name) + "Relations = "@ + "relations"@ + "("@
            + table_var_spec(t.name) + ", ({ one }) => ({"@ + relation_entries(t.name, t.columns)
            + new_line_spec(0) + "}));\n"@
    } else {
        Seq::empty()
    }
}

pub open spec fn relations_imports(t: TableView) -> Set<Import> {
    if has_link(t.columns) {
        set![(orm(), "relations"@)]
    } else {
        Set::empty()
    }
}

pub open spec fn table_ctor(q: Option<Seq<char>>) -> Seq<char> {
    if q is Some {
        "pgSchema"@
    } else {
        "pgTable"@
    }
}

/// The start of a table definition, up to its first column.
pub open spec fn table_head(name: Seq<char>, q: Option<Seq<char>>) -> Seq<char> {
    "\nexport const "@ + table_var_spec(name) + " = "@ + match q {
        Some(s) => "pgSchema"@ + "(\""@ + s + "\").table(\""@,
        None => "pgTable"@ + "(\""@,
    } + name + "\", {"@
}

/// One table definition followed by its relations block.
pub open spec fn table_out(t: TableView, q: Option<Seq<char>>) -> Out {
    match columns_out(t.name, t.columns) {
        Err(e) => Err(e),
        Ok((ct, ci)) => Ok((
            table_head(t.name, q) + ct + new_line_spec(0) + "});\n"@ + relations_spec(t),
            set![(pg_core(), table_ctor(q))].union(ci).union(relations_imports(t)),
        )),
    }
}

/// The tables in order; the first error stops.
pub open spec fn tables_out(ts: Seq<TableView>, q: Option<Seq<char>>) -> Out
    decreases ts.len(),
{
    if ts.len() == 0 {
        Ok((Seq::empty(), Set::empty()))
    } else {
        match tables_out(ts.drop_last(), q) {
            Err(e) => Err(e),
            Ok((t, i)) => match table_out(ts.last(), q) {
                Err(e) => Err(e),
                Ok((t2, i2)) => Ok((t + t2, i.union(i2))),
            },
        }
    }
}

/// The unit of a namespace: its import header, a blank line, its body.
pub open spec fn unit_spec(path: Seq<Seq<char>>, ts: Seq<TableView>) -> Result<Seq<char>, UnitErrorView> {
    match tables_out(ts, qualifier_spec(path)) {
        Ok((body, imps)) => Ok(header_spec(imps) + "\n"@ + body),
        Err(e) => Err(e),
    }
}

/// The database schema name of a namespace path.
pub fn module_path_to_pg_schema(path: &Vec<String>) -> (r: String)
    ensures
        r@ == schema_spec(views(path@)),
{
    let mut parts: Vec<String> = Vec::new();
    let mut i: usize = 0;
    let default_name = String::from_str("default");
    while i < path.len()
        invariant
            i <= path@.len(),
            default_name@ == "default"@,
            parts@.len() == i,
            views(parts@) == schema_segments(views(path@)).take(i as int),
        decreases path@.len() - i,
    {
        let part = if path[i].eq(&default_name) {
            String::from_str("public")
        } else {
            path[i].clone()
        };
        let ghost before = views(parts@);
        parts.push(part);
        proof {
            assert(views(path@)[i as int] == path@[i as int]@);
            assert(views(parts@) =~= schema_segments(views(path@)).take(i as int + 1));
        }
        i = i + 1;
    }
    proof {
        assert(schema_segments(views(path@)).take(i as int) =~= schema_segments(views(path@)));
    }
    join_strings(&parts, "::")
}

/// One column declaration, registering the imports it needs.
fn column_text(ctx: &mut Context, table: &String, c: &Pointer) -> (r: Result<String, UnitError>)
    requires
        old(ctx).wf(),
        old(ctx)@.indent == 1,
    ensures
        final(ctx).wf(),
        final(ctx)@.indent == 1,
        match column_out(table@, c@) {
            Ok((text, imps)) => r matches Ok(x) && x@ == text && final(ctx)@.imports == old(ctx)@.imports.union(imps),
            Err(e) => r matches Err(x) && x@ == e,
        },
{
    let ghost i0 = ctx@.imports;
    let mut s = ctx.new_line();
    if c.is_link {
        s.append(c.name.as_str());
        s.append("_id: ");
        let u = ctx.import("drizzle-orm/pg-core", "uuid");
        s.append(u.as_str());
        s.append("()");
    } else {
        s.append(c.name.as_str());
        s.append(": ");
        match generate_type_ref(ctx, c.target_name.as_str()) {
            Ok(t) => {
                s.append(t.as_str());
            },
            Err(e) => {
                return Err(UnitError { table: table.clone(), column: c.name.clone(), cause: e });
            },
        }
    }
    let ghost head = s@;
    let ghost i1 = ctx@.imports;
    if c.required {
        s.append(".notNull()");
    }
    let ghost s_req = s@;
    match &c.default {
        Some(d) => {
            s.append(".default(");
            let q = ctx.import("drizzle-orm", "sql");
            s.append(q.as_str());
            s.append(".raw(\"");
            s.append(d.as_str());
            s.append("\"))");
        },
        None => {},
    }
    let ghost s_def = s@;
    if c.is_link {
        s.append(".references(() => ");
        let v = generate_table_var_name(path_last(c.target_name.as_str()));
        s.append(v.as_str());
        s.append(".id)");
    }
    s.append(",");
    proof {
        let cv = c@;
        match column_type_out(cv) {
            Ok((h, imps)) => {
                assert(head =~= new_line_spec(1) + h);
                assert(i1 =~= i0.union(imps));
                let def_imps = match cv.default {
                    Some(d) => set![(orm(), "sql"@)],
                    None => Set::<Import>::empty(),
                };
                assert(ctx@.imports =~= i0.union(imps.union(def_imps)));
                assert(s@ =~= column_out(table@, cv)->Ok_0.0);
            },
            Err(_) => {},
        }
    }
    Ok(s)
}

/// Whether some column is a link.
fn any_link(cs: &Vec<Pointer>) -> (r: bool)
    ensures
        r == has_link(pointer_views(cs@)),
{
    let mut i: usize = 0;
    while i < cs.len()
        invariant
            i <= cs@.len(),
            forall|k: int| 0 <= k < i ==> !(#[trigger] cs@[k]).is_link,
        decreases cs@.len() - i,
    {
        if cs[i].is_link {
            proof {
                assert(pointer_views(cs@)[i as int].is_link);
            }
            return true;
        }
        i = i + 1;
    }
    proof {
        if has_link(pointer_views(cs@)) {
            let k = choose|k: int| 0 <= k < cs@.len() && (#[trigger] pointer_views(cs@)[k]).is_link;
            assert(cs@[k].is_link);
        }
    }
    false
}

/// The relations block of a table, registering the import it needs.
fn relations_text(ctx: &mut Context, t: &Table) -> (r: String)
    requires
        old(ctx).wf(),
        old(ctx)@.indent == 0,
    ensures
        final(ctx).wf(),
        final(ctx)@.indent == 0,
        r@ == relations_spec(t@),
        final(ctx)@.imports == old(ctx)@.imports.union(relations_imports(t@)),
{
    let ghost i0 = ctx@.imports;
    let mut s = String::new();
    if !any_link(&t.columns) {
        proof {
            assert(i0 =~= i0.union(Set::empty()));
        }
        return s;
    }
    s.append("\nexport const ");
    let cc = camel_case(t.name.as_str());
    s.append(cc.as_str());
    s.append("Relations = ");
    let rel = ctx.import("drizzle-orm", "relations");
    s.append(rel.as_str());
    s.append("(");
    let own = generate_table_var_name(t.name.as_str());
    s.append(own.as_str());
    s.append(", ({ one }) => ({");
    let ghost start = s@;
    let ghost cols = pointer_views(t.columns@);
    ctx.indent();
    let mut j: usize = 0;
    while j < t.columns.len()
        invariant
            j <= t.columns@.len(),
            cols == pointer_views(t.columns@),
            ctx.wf(),
            ctx@.indent == 1,
            ctx@.imports == i0.insert((orm(), "relations"@)),
            own@ == table_var_spec(t.name@),
            s@ == start + relation_entries(t.name@, cols.take(j as int)),
        decreases t.columns@.len() - j,
    {
        let ghost before = s@;
        let link = &t.columns[j];
        proof {
            assert(cols.take(j as int + 1).drop_last() =~= cols.take(j as int));
            assert(cols.take(j as int + 1).last() == link@);
        }
        if link.is_link {
            s.append(ctx.new_line().as_str());
            s.append(link.name.as_str());
            s.append(": one(");
            let target = generate_table_var_name(path_last(link.target_name.as_str()));
            s.append(target.as_str());
            s.append(", {");
            ctx.indent();
            s.append(ctx.new_line().as_str());
            s.append("fields: [");
            s.append(own.as_str());
            s.append(".");
            s.append(link.name.as_str());
            s.append("_id],");
            s.append(ctx.new_line().as_str());
            s.append("references: [");
            s.append(target.as_str());
            s.append(".id],");
            ctx.dedent();
            s.append(ctx.new_line().as_str());
            s.append("}),");
            proof {
                assert(s@ =~= before + relation_entry(t.name@, link@));
            }
        }
        proof {
            assert(s@ =~= start + relation_entries(t.name@, cols.take(j as int + 1)));
        }
        j = j + 1;
    }
    ctx.dedent();
    s.append(ctx.new_line().as_str());
    s.append("}));\n");
    proof {
        assert(cols.take(j as int) =~= cols);
        assert(s@ =~= relations_spec(t@));
        assert(ctx@.imports =~= i0.union(relations_imports(t@)));
    }
    s
}

/// One table definition and its relations block, registering the imports
/// they need.
fn table_text(ctx: &mut Context, t: &Table, q: &Option<String>) -> (r: Result<String, UnitError>)
    requires
        old(ctx).wf(),
        old(ctx)@.indent == 0,
    ensures
        final(ctx).wf(),
        final(ctx)@.indent == 0,
        match table_out(t@, crate::opt_view(*q)) {
            Ok((text, imps)) => r matches Ok(x) && x@ == text && final(ctx)@.imports == old(ctx)@.imports.union(imps),
            Err(e) => r matches Err(x) && x@ == e,
        },
{
    let ghost i0 = ctx@.imports;
    let ghost qv = crate::opt_view(*q);
    let mut s = String::from_str("\nexport const ");
    let own = generate_table_var_name(t.name.as_str());
    s.append(own.as_str());
    s.append(" = ");
    match q {
        Some(schema) => {
            let c = ctx.import("drizzle-orm/pg-core", "pgSchema");
            s.append(c.as_str());
            s.append("(\"");
            s.append(schema.as_str());
            s.append("\").table(\"");
        },
        None => {
            let c = ctx.import("drizzle-orm/pg-core", "pgTable");
            s.append(c.as_str());
            s.append("(\"");
        },
    }
    s.append(t.name.as_str());
    s.append("\", {");
    proof {
        reveal_strlit("\nexport const ");
        assert(s@ =~= table_head(t.name@, qv));
    }
    let ghost i1 = ctx@.imports;
    let ghost cols = pointer_views(t.columns@);
    ctx.indent();
    let mut j: usize = 0;
    while j < t.columns.len()
        invariant
            j <= t.columns@.len(),
            cols == pointer_views(t.columns@),
            ctx.wf(),
            ctx@.indent == 1,
            columns_out(t.name@, cols.take(j as int)) matches Ok((ct, ci)) && s@ == table_head(t.name@, qv) + ct
                && ctx@.imports == i1.union(ci),
        decreases t.columns@.len() - j,
    {
        let ghost before = s@;
        let ghost ib = ctx@.imports;
        proof {
            assert(cols.take(j as int + 1).drop_last() =~= cols.take(j as int));
            assert(cols.take(j as int + 1).last() == t.columns@[j as int]@);
        }
        match column_text(ctx, &t.name, &t.columns[j]) {
            Ok(c) => {
                s.append(c.as_str());
                proof {
                    let ci = columns_out(t.name@, cols.take(j as int))->Ok_0.1;
                    let c2 = column_out(t.name@, t.columns@[j as int]@)->Ok_0.1;
                    assert(ctx@.imports =~= i1.union(ci.union(c2)));
                }
            },
            Err(e) => {
                proof {
                    assert(columns_out(t.name@, cols.take(j as int + 1)) is Err);
                    assert(cols =~= cols.take(j as int + 1) + cols.skip(j as int + 1));
                    lemma_columns_out_err_prefix(t.name@, cols.take(j as int + 1), cols.skip(j as int + 1));
                }
                ctx.dedent();
                return Err(e);
            },
        }
        j = j + 1;
    }
    proof {
        assert(cols.take(j as int) =~= cols);
    }
    ctx.dedent();
    s.append(ctx.new_line().as_str());
    s.append("});\n");
    let ghost i2 = ctx@.imports;
    let rel = relations_text(ctx, t);
    s.append(rel.as_str());
    proof {
        let ct = columns_out(t.name@, cols)->Ok_0.0;
        let ci = columns_out(t.name@, cols)->Ok_0.1;
        assert(s@ =~= table_head(t.name@, qv) + ct + new_line_spec(0) + "});\n"@ + relations_spec(t@));
        assert(i1 == i0.insert((pg_core(), table_ctor(qv))));
        assert(ctx@.imports =~= i0.union(set![(pg_core(), table_ctor(qv))].union(ci).union(relations_imports(t@))));
    }
    Ok(s)
}

/// An error in a prefix of the columns is the error of all of them.
proof fn lemma_columns_out_err_prefix(table: Seq<char>, a: Seq<PointerView>, b: Seq<PointerView>)
    requires
        columns_out(table, a) is Err,
    ensures
        columns_out(table, a + b) == columns_out(table, a),
    decreases b.len(),
{
    if b.len() == 0 {
        assert(a + b =~= a);
    } else {
        lemma_columns_out_err_prefix(table, a, b.drop_last());
        assert((a + b).drop_last() =~= a + b.drop_last());
    }
}

/// An error in a prefix of the tables is the error of all of them.
proof fn lemma_tables_out_err_prefix(a: Seq<TableView>, b: Seq<TableView>, q: Option<Seq<char>>)
    requires
        tables_out(a, q) is Err,
    ensures
        tables_out(a + b, q) == tables_out(a, q),
    decreases b.len(),
{
    if b.len() == 0 {
        assert(a + b =~= a);
    } else {
        lemma_tables_out_err_prefix(a, b.drop_last(), q);
        assert((a + b).drop_last() =~= a + b.drop_last());
    }
}

/// The unit of a namespace: the sorted import header, a blank line, then a
/// definition and a relations block for each of its tables. Stops at the
/// first column whose scalar type has no column type, naming its table and
/// column.
pub fn generate_file(module: &Module) -> (r: Result<String, UnitError>)
    ensures
        match unit_spec(views(module.path@), table_views(module.tables@)) {
            Ok(text) => r matches Ok(x) && x@ == text,
            Err(e) => r matches Err(x) && x@ == e,
        },
{
    let mut ctx = Context::new();
    let schema = join_strings(&module.path, "::");
    let q = if schema.eq(&String::from_str("default")) {
        None
    } else {
        Some(schema)
    };
    let ghost qv = qualifier_spec(views(module.path@));
    assert(crate::opt_view(q) == qv);
    let ghost ts = table_views(module.tables@);
    let mut body = String::new();
    let mut i: usize = 0;
    while i < module.tables.len()
        invariant
            i <= module.tables@.len(),
            ts == table_views(module.tables@),
            crate::opt_view(q) == qv,
            qv == qualifier_spec(views(module.path@)),
            ctx.wf(),
            ctx@.indent == 0,
            tables_out(ts.take(i as int), qv) matches Ok((bt, bi)) && body@ == bt && ctx@.imports == bi,
        decreases module.tables@.len() - i,
    {
        proof {
            assert(ts.take(i as int + 1).drop_last() =~= ts.take(i as int));
            assert(ts.take(i as int + 1).last() == module.tables@[i as int]@);
        }
        match table_text(&mut ctx, &module.tables[i], &q) {
            Ok(t) => {
                body.append(t.as_str());
            },
            Err(e) => {
                proof {
                    assert(table_out(module.tables@[i as int]@, qv) is Err);
                    assert(tables_out(ts.take(i as int + 1), qv) is Err);
                    assert(ts =~= ts.take(i as int + 1) + ts.skip(i as int + 1));
                    lemma_tables_out_err_prefix(ts.take(i as int + 1), ts.skip(i as int + 1), qv);
                }
                return Err(e);
            },
        }
        i = i + 1;
    }
    proof {
        assert(ts.take(i as int) =~= ts);
    }
    let mut res = ctx.render_imports();
    res.append("\n");
    res.append(body.as_str());
    Ok(res)
}

/// Where the unit of a module goes, relative to its parent's directory: a
/// module with children becomes a directory with an `index.ts`, any other
/// a single `<name>.ts`.
pub open spec fn location_spec(has_children: bool, module_name: Seq<char>) -> Seq<Seq<char>> {
    if has_children {
        seq![module_name, "index.ts"@]
    } else {
        seq![module_name + ".ts"@]
    }
}

/// Where the unit of a module goes, relative to its parent's directory.
pub fn unit_location(module: &Module, module_name: &str) -> (r: Vec<String>)
    ensures
        views(r@) == location_spec(module.submodules@.len() > 0, module_name@),
{
    let mut r: Vec<String> = Vec::new();
    if module.submodules.len() > 0 {
        r.push(String::from_str(module_name));
        r.push(String::from_str("index.ts"));
        proof {
            assert(views(r@) =~= seq![module_name@, "index.ts"@]);
        }
    } else {
        let mut file = String::from_str(module_name);
        file.append(".ts");
        r.push(file);
        proof {
            assert(views(r@) =~= seq![module_name@ + ".ts"@]);
        }
    }
    r
}

/// The file of a module's unit, where it has one: only a module with
/// tables produces a unit.
pub fn unit_file(module: &Module, module_name: &str) -> (r: Option<Vec<String>>)
    ensures
        r is Some <==> module.tables@.len() > 0,
        r matches Some(p) ==> views(p@) == location_spec(module.submodules@.len() > 0, module_name@),
{
    if module.tables.len() > 0 {
        Some(unit_location(module, module_name))
    } else {
        None
    }
}

/// The directory that a module with children becomes, relative to its
/// parent's directory; its children's units go there.
pub fn module_dir(module: &Module, module_name: &str) -> (r: Option<String>)
    ensures
        r is Some <==> module.submodules@.len() > 0,
        r matches Some(d) ==> d@ == module_name@,
{
    if module.submodules.len() > 0 {
        Some(String::from_str(module_name))
    } else {
        None
    }
}

} // verus!
