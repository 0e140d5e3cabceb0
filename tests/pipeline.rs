use drizzle_schema::context::Context;
use drizzle_schema::generate::{generate_file, module_dir, module_path_to_pg_schema, unit_file, unit_location};
use drizzle_schema::naming::{camel_case, generate_table_var_name, lower_case_first, upper_case_first};
use drizzle_schema::partition::partition_into_modules;
use drizzle_schema::path::{path_last, path_lookup, path_pop_front};
use drizzle_schema::transform::{object_type_to_table, pointer_ordering, ptr_priority};
use drizzle_schema::vocabulary::generate_type_ref;
use drizzle_schema::{Cardinality, GenerateError, Module, ObjectType, Pointer, Table, UnitError};

fn ptr(name: &str, target: &str, is_link: bool, card: Cardinality, required: bool, default: Option<&str>) -> Pointer {
    Pointer {
        name: name.to_string(),
        target_name: target.to_string(),
        is_link,
        cardinality: card,
        required,
        default: default.map(|d| d.to_string()),
    }
}

fn scalar(name: &str, target: &str, required: bool) -> Pointer {
    ptr(name, target, false, Cardinality::One, required, None)
}

fn movie_type(name: &str) -> ObjectType {
    ObjectType {
        name: name.to_string(),
        ptrs: vec![
            scalar("title", "std::str", true),
            ptr("tags", "std::str", false, Cardinality::Many, false, None),
            scalar("release_year", "std::int32", false),
            scalar("__type__", "schema::ObjectType", true),
            scalar("id", "std::uuid", true),
        ],
    }
}

fn column_names(t: &Table) -> Vec<String> {
    t.columns.iter().map(|c| c.name.clone()).collect()
}

fn strings(v: &[&str]) -> Vec<String> {
    v.iter().map(|s| s.to_string()).collect()
}

#[test]
fn end_to_end_movie_in_namespace() {
    let root = partition_into_modules(vec![movie_type("ns::Movie")], vec![]);
    assert!(root.tables.is_empty());
    assert_eq!(root.submodules.len(), 1);
    let ns = &root.submodules[0];
    assert_eq!(ns.path, strings(&["ns"]));
    assert_eq!(ns.tables.len(), 2);
    assert_eq!(ns.tables[0].name, "Movie");
    assert_eq!(column_names(&ns.tables[0]), strings(&["id", "release_year", "title"]));
    assert_eq!(ns.tables[1].name, "Movie.tags");
    assert_eq!(column_names(&ns.tables[1]), strings(&["source", "target"]));
    let source = &ns.tables[1].columns[0];
    assert!(source.is_link && source.required && source.cardinality == Cardinality::One);
    assert_eq!(source.target_name, "Movie");
    let target = &ns.tables[1].columns[1];
    assert!(!target.is_link && target.required && target.cardinality == Cardinality::One);
    assert_eq!(target.target_name, "std::str");

    let text = generate_file(ns).unwrap();
    assert!(text.contains("export const movieTable = pgSchema(\"ns\").table(\"Movie\", {"));
    assert!(text.contains("export const movieTagsTable = pgSchema(\"ns\").table(\"Movie.tags\", {"));
    assert!(text.starts_with(
        "import { relations } from 'drizzle-orm';\nimport { integer, pgSchema, text, uuid } from 'drizzle-orm/pg-core';\n\n"
    ));
    assert!(text.contains("\n  release_year: integer(),"));
    assert!(text.contains("\n  source_id: uuid().notNull().references(() => movieTable.id),"));
}

#[test]
fn root_namespace_has_no_qualifier() {
    let root = partition_into_modules(vec![movie_type("default::Movie")], vec![]);
    let def = &root.submodules[0];
    assert_eq!(def.path, strings(&["default"]));
    assert_eq!(module_path_to_pg_schema(&def.path), "public");
    let text = generate_file(def).unwrap();
    assert!(text.contains("export const movieTable = pgTable(\"Movie\", {"));
    assert!(!text.contains("pgSchema"));
}

#[test]
fn unknown_scalar_stops_the_unit() {
    let module = Module {
        path: strings(&["default"]),
        tables: vec![Table { name: "Movie".to_string(), columns: vec![scalar("rating", "std::mystery", true)] }],
        submodules: vec![],
    };
    assert_eq!(
        generate_file(&module),
        Err(UnitError {
            table: "Movie".to_string(),
            column: "rating".to_string(),
            cause: GenerateError::UnknownScalarType("std::mystery".to_string()),
        })
    );
}

#[test]
fn unimplemented_scalar_is_a_distinct_error() {
    let module = Module {
        path: strings(&["default"]),
        tables: vec![Table { name: "Event".to_string(), columns: vec![scalar("at", "std::datetime", true)] }],
        submodules: vec![],
    };
    assert_eq!(
        generate_file(&module),
        Err(UnitError {
            table: "Event".to_string(),
            column: "at".to_string(),
            cause: GenerateError::UnimplementedScalarType("std::datetime".to_string()),
        })
    );
}

#[test]
fn exact_unit_text() {
    let module = Module {
        path: strings(&["default"]),
        tables: vec![
            Table {
                name: "Movie".to_string(),
                columns: vec![scalar("id", "std::uuid", true), ptr("title", "std::str", false, Cardinality::One, false, Some("'x'"))],
            },
            Table {
                name: "Review".to_string(),
                columns: vec![ptr("movie", "default::Movie", true, Cardinality::One, true, None)],
            },
        ],
        submodules: vec![],
    };
    let expected = String::new()
        + "import { relations, sql } from 'drizzle-orm';\n"
        + "import { pgTable, text, uuid } from 'drizzle-orm/pg-core';\n"
        + "\n"
        + "\nexport const movieTable = pgTable(\"Movie\", {"
        + "\n  id: uuid().notNull(),"
        + "\n  title: text().default(sql.raw(\"'x'\")),"
        + "\n});\n"
        + "\nexport const reviewTable = pgTable(\"Review\", {"
        + "\n  movie_id: uuid().notNull().references(() => movieTable.id),"
        + "\n});\n"
        + "\nexport const reviewRelations = relations(reviewTable, ({ one }) => ({"
        + "\n  movie: one(movieTable, {"
        + "\n    fields: [reviewTable.movie_id],"
        + "\n    references: [movieTable.id],"
        + "\n  }),"
        + "\n}));\n";
    assert_eq!(generate_file(&module).unwrap(), expected);
}

#[test]
fn imports_sorted_and_deduplicated() {
    let mut ctx = Context::new();
    assert_eq!(ctx.import("m", "b"), "b");
    ctx.import("m", "a");
    ctx.import("m", "a");
    ctx.import("m", "c");
    assert_eq!(ctx.render_imports(), "import { a, b, c } from 'm';\n");
}

#[test]
fn imports_grouped_by_module_in_order() {
    let mut ctx = Context::new();
    ctx.import("z", "y");
    ctx.import("a", "x");
    ctx.import("z", "b");
    let groups = ctx.imports();
    assert_eq!(groups, vec![("a".to_string(), strings(&["x"])), ("z".to_string(), strings(&["b", "y"]))]);
    assert_eq!(ctx.render_imports(), "import { x } from 'a';\nimport { b, y } from 'z';\n");
}

#[test]
fn indentation() {
    let mut ctx = Context::new();
    assert_eq!(ctx.new_line(), "\n");
    ctx.indent();
    ctx.indent();
    assert_eq!(ctx.new_line(), "\n    ");
    ctx.dedent();
    assert_eq!(ctx.new_line(), "\n  ");
}

#[test]
fn column_order_ignores_input_order() {
    let a = object_type_to_table(movie_type("Movie"));
    let mut shuffled = movie_type("Movie");
    shuffled.ptrs.reverse();
    shuffled.ptrs.swap(0, 2);
    let b = object_type_to_table(shuffled);
    assert_eq!(a[0], b[0]);
    let c = object_type_to_table(ObjectType {
        name: "Edge".to_string(),
        ptrs: vec![scalar("zeta", "std::str", true), scalar("target", "std::str", true), scalar("alpha", "std::str", true),
            scalar("source", "std::str", true), scalar("id", "std::uuid", true)],
    });
    assert_eq!(column_names(&c[0]), strings(&["id", "source", "target", "alpha", "zeta"]));
}

#[test]
fn one_join_table_per_collection() {
    let t = ObjectType {
        name: "User".to_string(),
        ptrs: vec![
            ptr("friends", "default::User", true, Cardinality::Many, false, None),
            scalar("name", "std::str", true),
            ptr("emails", "std::str", false, Cardinality::Many, true, None),
        ],
    };
    let r = object_type_to_table(t);
    assert_eq!(r.len(), 3);
    assert_eq!(r[0].name, "User");
    assert_eq!(r[1].name, "User.friends");
    assert_eq!(r[2].name, "User.emails");
    assert_eq!(r[1].columns[1], ptr("target", "default::User", true, Cardinality::One, true, None));
    assert_eq!(r[2].columns[0], ptr("source", "User", true, Cardinality::One, true, None));
}

#[test]
fn type_pointer_dropped() {
    let r = object_type_to_table(movie_type("Movie"));
    for t in &r {
        assert!(t.columns.iter().all(|c| c.name != "__type__"));
    }
}

#[test]
fn priorities_and_ordering() {
    assert_eq!(ptr_priority(&scalar("id", "std::uuid", true)), 0);
    assert_eq!(ptr_priority(&scalar("__type__", "x", true)), 1);
    assert_eq!(ptr_priority(&scalar("source", "x", true)), 2);
    assert_eq!(ptr_priority(&scalar("target", "x", true)), 3);
    assert_eq!(ptr_priority(&scalar("name", "x", true)), 4);
    assert_eq!(pointer_ordering(&scalar("b", "x", true), &scalar("a", "x", true)), std::cmp::Ordering::Greater);
    assert_eq!(pointer_ordering(&scalar("id", "x", true), &scalar("a", "x", true)), std::cmp::Ordering::Less);
    assert_eq!(pointer_ordering(&scalar("a", "x", true), &scalar("a", "y", true)), std::cmp::Ordering::Equal);
}

#[test]
fn camel_case_conversion() {
    assert_eq!(camel_case("movie_genre.tags"), "movieGenreTags");
    assert_eq!(camel_case("Movie.tags"), "movieTags");
    assert_eq!(camel_case("movieTable"), "movieTable");
    assert_eq!(camel_case(camel_case("Some_name").as_str()), camel_case("Some_name"));
    assert_eq!(camel_case("a__b"), "aB");
    assert_eq!(camel_case("_ab"), "ab");
    assert_eq!(camel_case("__x_y"), "xY");
    assert_eq!(camel_case(".Movie.tags"), "movieTags");
    assert_eq!(camel_case(""), "");
    assert_eq!(generate_table_var_name("Movie.tags"), "movieTagsTable");
    assert_eq!(lower_case_first("ABC"), "aBC");
    assert_eq!(upper_case_first("abc"), "Abc");
    assert_eq!(lower_case_first(""), "");
}

#[test]
fn vocabulary_mapping() {
    let mut ctx = Context::new();
    assert_eq!(generate_type_ref(&mut ctx, "std::str"), Ok("text()".to_string()));
    assert_eq!(generate_type_ref(&mut ctx, "std::int64"), Ok("bigint({ mode: \"number\"})".to_string()));
    assert_eq!(generate_type_ref(&mut ctx, "std::pg::interval"), Ok("interval()".to_string()));
    assert_eq!(generate_type_ref(&mut ctx, "cfg::memory"), Err(GenerateError::UnimplementedScalarType("cfg::memory".to_string())));
    assert_eq!(generate_type_ref(&mut ctx, "nope"), Err(GenerateError::UnknownScalarType("nope".to_string())));
    assert_eq!(ctx.render_imports(), "import { bigint, interval, text } from 'drizzle-orm/pg-core';\n");
}

#[test]
fn namespace_paths() {
    assert_eq!(path_pop_front("a::b::c".to_string()), Ok(("a".to_string(), "b::c".to_string())));
    assert_eq!(path_pop_front("abc".to_string()), Err("abc".to_string()));
    assert_eq!(path_last("a::b::c"), "c");
    assert_eq!(path_last("c"), "c");
    assert_eq!(path_lookup("a::b::c", 0), Some(("a", false)));
    assert_eq!(path_lookup("a::b::c", 2), Some(("c", true)));
    assert_eq!(path_lookup("a::b::c", 3), None);
    assert_eq!(module_path_to_pg_schema(&strings(&["default", "sub"])), "public::sub");
}

#[test]
fn partition_nested_and_sorted() {
    let types = vec![
        ObjectType { name: "default::Zed".to_string(), ptrs: vec![] },
        ObjectType { name: "a::b::Deep".to_string(), ptrs: vec![] },
        ObjectType { name: "default::Alpha".to_string(), ptrs: vec![] },
        ObjectType { name: "Top".to_string(), ptrs: vec![] },
    ];
    let root = partition_into_modules(types, vec![]);
    assert_eq!(root.tables.len(), 1);
    assert_eq!(root.tables[0].name, "Top");
    assert_eq!(root.submodules.len(), 2);
    let def = root.submodules.iter().find(|m| m.path == strings(&["default"])).unwrap();
    assert_eq!(def.tables.iter().map(|t| t.name.clone()).collect::<Vec<_>>(), strings(&["Alpha", "Zed"]));
    let a = root.submodules.iter().find(|m| m.path == strings(&["a"])).unwrap();
    assert!(a.tables.is_empty());
    assert_eq!(a.submodules[0].path, strings(&["a", "b"]));
    assert_eq!(a.submodules[0].tables[0].name, "Deep");
    assert_eq!(unit_location(&root, "schema"), strings(&["schema", "index.ts"]));
    assert_eq!(unit_location(&a.submodules[0], "b"), strings(&["b.ts"]));
    assert_eq!(unit_file(a, "a"), None);
    assert_eq!(module_dir(a, "a"), Some("a".to_string()));
    assert_eq!(unit_file(&a.submodules[0], "b"), Some(strings(&["b.ts"])));
    assert_eq!(module_dir(&a.submodules[0], "b"), None);
    assert_eq!(unit_file(&root, "schema"), Some(strings(&["schema", "index.ts"])));
}

fn one_table_module(path: &[&str]) -> Module {
    Module {
        path: strings(path),
        tables: vec![Table { name: "T".to_string(), columns: vec![scalar("id", "std::uuid", true)] }],
        submodules: vec![],
    }
}

#[test]
fn qualifier_is_the_joined_path() {
    let text = generate_file(&one_table_module(&["public"])).unwrap();
    assert!(text.contains("export const tTable = pgSchema(\"public\").table(\"T\", {"));
    let text = generate_file(&one_table_module(&["a", "default"])).unwrap();
    assert!(text.contains("export const tTable = pgSchema(\"a::default\").table(\"T\", {"));
    let text = generate_file(&one_table_module(&["default"])).unwrap();
    assert!(text.contains("export const tTable = pgTable(\"T\", {"));
    assert_eq!(text, "import { pgTable, uuid } from 'drizzle-orm/pg-core';\n\n\nexport const tTable = pgTable(\"T\", {\n  id: uuid().notNull(),\n});\n");
}
