//! The scalar type vocabulary and the column constructors it maps to.
use vstd::prelude::*;
use crate::GenerateError;
use crate::context::Context;

verus! {

/// What a scalar type identifier maps to.
pub enum ScalarKind {
    /// A column constructor of `drizzle-orm/pg-core`, called without arguments.
    Native(Seq<char>),
    /// A 64-bit integer, held as a JavaScript number.
    Int64,
    /// Known, but without a column type yet.
    Unimplemented,
    /// Not in the vocabulary.
    Unknown,
}

pub open spec fn scalar_kind(t: Seq<char>) -> ScalarKind {
    if t == "std::str"@ {
        ScalarKind::Native("text"@)
    } else if t == "std::int64"@ {
        ScalarKind::Int64
    } else if t == "std::int32"@ {
        ScalarKind::Native("integer"@)
    } else if t == "std::int16"@ {
        ScalarKind::Native("smallint"@)
    } else if t == "std::decimal"@ {
        ScalarKind::Native("numeric"@)
    } else if t == "std::bigint"@ {
        ScalarKind::Unimplemented
    } else if t == "std::bool"@ {
        ScalarKind::Native("bool"@)
    } else if t == "std::float64"@ {
        ScalarKind::Native("doublePrecision"@)
    } else if t == "std::float32"@ {
        ScalarKind::Native("real"@)
    } else if t == "std::uuid"@ {
        ScalarKind::Native("uuid"@)
    } else if t == "std::datetime"@ {
        ScalarKind::Unimplemented
    } else if t == "std::duration"@ {
        ScalarKind::Unimplemented
    } else if t == "std::bytes"@ {
        ScalarKind::Native("bytea"@)
    } else if t == "std::json"@ {
        ScalarKind::Native("jsonb"@)
    } else if t == "std::cal::local_datetime"@ {
        ScalarKind::Unimplemented
    } else if t == "std::cal::local_date"@ {
        ScalarKind::Unimplemented
    } else if t == "std::cal::local_time"@ {
        ScalarKind::Native("time"@)
    } else if t == "std::cal::relative_duration"@ {
        ScalarKind::Unimplemented
    } else if t == "std::cal::date_duration"@ {
        ScalarKind::Unimplemented
    } else if t == "cfg::memory"@ {
        ScalarKind::Unimplemented
    } else if t == "std::pg::json"@ {
        ScalarKind::Native("json"@)
    } else if t == "std::pg::timestamptz"@ {
        ScalarKind::Native("timestamptz"@)
    } else if t == "std::pg::timestamp"@ {
        ScalarKind::Native("timestamp"@)
    } else if t == "std::pg::date"@ {
        ScalarKind::Native("date"@)
    } else if t == "std::pg::interval"@ {
        ScalarKind::Native("interval"@)
    } else {
        ScalarKind::Unknown
    }
}

pub open spec fn pg_core() -> Seq<char> {
    "drizzle-orm/pg-core"@
}

/// The text of a 64-bit integer column.
pub open spec fn int64_ref() -> Seq<char> {
    "bigint"@ + "({ mode: \"number\"})"@
}

/// The column constructor text of a scalar type, with the import it needs;
/// the error for a type without one.
pub open spec fn type_ref_spec(t: Seq<char>) -> Result<(Seq<char>, (Seq<char>, Seq<char>)), ScalarKind> {
    match scalar_kind(t) {
        ScalarKind::Native(n) => Ok((n + "()"@, (pg_core(), n))),
        ScalarKind::Int64 => Ok((int64_ref(), (pg_core(), "bigint"@))),
        k => Err(k),
    }
}

fn same(a: &String, b: &str) -> (r: bool)
    ensures
        r == (a@ == b@),
{
    a.eq(&String::from_str(b))
}

/// The column constructor text for a scalar type, registering its import
/// in `ctx`. Fails on a type outside the vocabulary, and distinctly on one
/// that has no column type yet; `ctx` is then unchanged.
pub fn generate_type_ref(ctx: &mut Context, scalar_name: &str) -> (r: Result<String, GenerateError>)
    requires
        old(ctx).wf(),
    ensures
        final(ctx).wf(),
        final(ctx)@.indent == old(ctx)@.indent,
        match type_ref_spec(scalar_name@) {
            Ok((text, imp)) => r matches Ok(x) && x@ == text && final(ctx)@.imports == old(ctx)@.imports.insert(imp),
            Err(ScalarKind::Unimplemented) => r matches Err(GenerateError::UnimplementedScalarType(x))
                && x@ == scalar_name@ && final(ctx)@.imports == old(ctx)@.imports,
            Err(_) => r matches Err(GenerateError::UnknownScalarType(x)) && x@ == scalar_name@
                && final(ctx)@.imports == old(ctx)@.imports,
        },
{
    let t = String::from_str(scalar_name);
    let mut unimplemented = false;
    let pg_name: &str = if same(&t, "std::str") {
        "text"
    } else if same(&t, "std::int64") {
        let mut r = ctx.import("drizzle-orm/pg-core", "bigint");
        r.append("({ mode: \"number\"})");
        return Ok(r);
    } else if same(&t, "std::int32") {
        "integer"
    } else if same(&t, "std::int16") {
        "smallint"
    } else if same(&t, "std::decimal") {
        "numeric"
    } else if same(&t, "std::bigint") {
        unimplemented = true;
        ""
    } else if same(&t, "std::bool") {
        "bool"
    } else if same(&t, "std::float64") {
        "doublePrecision"
    } else if same(&t, "std::float32") {
        "real"
    } else if same(&t, "std::uuid") {
        "uuid"
    } else if same(&t, "std::datetime") || same(&t, "std::duration") {
        unimplemented = true;
        ""
    } else if same(&t, "std::bytes") {
        "bytea"
    } else if same(&t, "std::json") {
        "jsonb"
    } else if same(&t, "std::cal::local_datetime") || same(&t, "std::cal::local_date") {
        unimplemented = true;
        ""
    } else if same(&t, "std::cal::local_time") {
        "time"
    } else if same(&t, "std::cal::relative_duration") || same(&t, "std::cal::date_duration")
        || same(&t, "cfg::memory") {
        unimplemented = true;
        ""
    } else if same(&t, "std::pg::json") {
        "json"
    } else if same(&t, "std::pg::timestamptz") {
        "timestamptz"
    } else if same(&t, "std::pg::timestamp") {
        "timestamp"
    } else if same(&t, "std::pg::date") {
        "date"
    } else if same(&t, "std::pg::interval") {
        "interval"
    } else {
        return Err(GenerateError::UnknownScalarType(t));
    };
    if unimplemented {
        return Err(GenerateError::UnimplementedScalarType(t));
    }
    let mut r = ctx.import("drizzle-orm/pg-core", pg_name);
    r.append("()");
    Ok(r)
}

} // verus!
