//! Helpers of the relational sink: column types, insert statements and the
//! textual form in which record values are placed into them.
use vstd::prelude::*;
use crate::error::{ExpectedError, PostgresError};
use crate::json::{entries_model, find_in, find_value, json_text, to_json_text, JsonEntry, JsonModel, JsonValue};
use crate::text::{push_all, push_char};

verus! {

/// The column type for a schema type name: `string`, `integer`, `number`, `object`, `array`.
pub open spec fn sql_type_of(name: Seq<char>) -> Option<Seq<char>> {
    if name == "string"@ {
        Some("varchar"@)
    } else if name == "integer"@ {
        Some("bigint"@)
    } else if name == "number"@ {
        Some("double precision"@)
    } else if name == "object"@ || name == "array"@ {
        Some("json"@)
    } else {
        None
    }
}

/// The column type for a schema type name; fails with `UnsupportedType` on any other name.
pub fn sql_type(name: &str) -> (r: Result<String, PostgresError>)
    ensures
        match sql_type_of(name@) {
            Some(t) => r matches Ok(s) && s@ == t,
            None => r matches Err(e) && e is UnsupportedType && e->UnsupportedType_0@ == "unsupported type: "@ + name@,
        },
{
    if crate::text::str_eq(name, "string") {
        Ok("varchar".to_string())
    } else if crate::text::str_eq(name, "integer") {
        Ok("bigint".to_string())
    } else if crate::text::str_eq(name, "number") {
        Ok("double precision".to_string())
    } else if crate::text::str_eq(name, "object") || crate::text::str_eq(name, "array") {
        Ok("json".to_string())
    } else {
        let mut msg = "unsupported type: ".to_string();
        push_all(&mut msg, name);
        Err(PostgresError::UnsupportedType(msg))
    }
}

/// The column type of the earlier schema format, where an array is stored as text
/// and `boolean` is accepted.
pub open spec fn column_type_of(name: Seq<char>) -> Option<Seq<char>> {
    if name == "string"@ || name == "array"@ {
        Some("varchar"@)
    } else if name == "integer"@ {
        Some("bigint"@)
    } else if name == "number"@ {
        Some("double precision"@)
    } else if name == "boolean"@ {
        Some("boolean"@)
    } else if name == "object"@ {
        Some("json"@)
    } else {
        None
    }
}

/// The column type of the earlier schema format; fails with `TypeError` on any other name.
pub fn convert_type(_type: String) -> (r: Result<String, ExpectedError>)
    ensures
        match column_type_of(_type@) {
            Some(t) => r matches Ok(s) && s@ == t,
            None => r matches Err(e) && e is TypeError && e->TypeError_0@ == "unsupported type!"@,
        },
{
    let t = _type.as_str();
    if crate::text::str_eq(t, "string") || crate::text::str_eq(t, "array") {
        Ok("varchar".to_string())
    } else if crate::text::str_eq(t, "integer") {
        Ok("bigint".to_string())
    } else if crate::text::str_eq(t, "number") {
        Ok("double precision".to_string())
    } else if crate::text::str_eq(t, "boolean") {
        Ok("boolean".to_string())
    } else if crate::text::str_eq(t, "object") {
        Ok("json".to_string())
    } else {
        Err(ExpectedError::TypeError("unsupported type!".to_string()))
    }
}

/// The text that stands for a record's field in an insert statement: `null` when
/// absent or null, a string in single quotes, an array or object as quoted JSON,
/// anything else as its JSON text.
pub open spec fn query_value_text(found: Option<JsonModel>) -> Seq<char> {
    match found {
        None => "null"@,
        Some(JsonModel::Null) => "null"@,
        Some(JsonModel::Str(s)) => seq!['\''] + s + seq!['\''],
        Some(JsonModel::Array(items)) => seq!['\''] + json_text(JsonModel::Array(items)) + seq!['\''],
        Some(JsonModel::Object(es)) => seq!['\''] + json_text(JsonModel::Object(es)) + seq!['\''],
        Some(v) => json_text(v),
    }
}

/// The text for the field `target_name` of `values`, found by depth-first search
/// (see `query_value_text`).
pub fn get_query_value(values: &Vec<JsonEntry>, target_name: &str) -> (r: String)
    ensures
        r@ == query_value_text(find_in(entries_model(values@), target_name@)),
{
    match find_value(values, target_name) {
        None => "null".to_string(),
        Some(JsonValue::Null) => "null".to_string(),
        Some(JsonValue::Str(s)) => {
            let mut r = String::new();
            push_char(&mut r, '\'');
            push_all(&mut r, s.as_str());
            push_char(&mut r, '\'');
            assert(r@ =~= seq!['\''] + s@ + seq!['\'']);
            r
        },
        Some(v) => {
            let text = to_json_text(v);
            if v.is_array_or_object() {
                let mut r = String::new();
                push_char(&mut r, '\'');
                push_all(&mut r, text.as_str());
                push_char(&mut r, '\'');
                assert(r@ =~= seq!['\''] + text@ + seq!['\'']);
                r
            } else {
                text
            }
        },
    }
}

/// `s` with every occurrence of `from`, scanned left to right without overlap, replaced by `to`.
pub open spec fn replace_all(s: Seq<char>, from: Seq<char>, to: Seq<char>) -> Seq<char>
    decreases s.len(),
{
    if from.len() == 0 || s.len() < from.len() {
        s
    } else if s.subrange(0, from.len() as int) == from {
        to + replace_all(s.subrange(from.len() as int, s.len() as int), from, to)
    } else {
        seq![s[0]] + replace_all(s.drop_first(), from, to)
    }
}

fn matches_at(s: &Vec<char>, i: usize, from: &Vec<char>) -> (r: bool)
    requires
        i + from@.len() <= s@.len(),
    ensures
        r == (s@.subrange(i as int, i + from@.len()) == from@),
{
    let sl = s.len();
    let mut k: usize = 0;
    while k < from.len()
        invariant
            sl == s@.len(),
            i + from@.len() <= s@.len(),
            k <= from@.len(),
            forall|t: int| 0 <= t < k ==> s@[i + t] == from@[t],
        decreases from@.len() - k,
    {
        if s[i + k] != from[k] {
            assert(s@.subrange(i as int, i + from@.len())[k as int] != from@[k as int]);
            return false;
        }
        k = k + 1;
    }
    assert(s@.subrange(i as int, i + from@.len()) =~= from@);
    true
}

/// `s` with every occurrence of `from` replaced by `to` (see `replace_all`).
pub fn replace_str(s: &str, from: &str, to: &str) -> (r: String)
    ensures
        r@ == replace_all(s@, from@, to@),
{
    let cs = crate::text::chars_of(s);
    let fs = crate::text::chars_of(from);
    let n = cs.len();
    let m = fs.len();
    let mut out = String::new();
    if m == 0 {
        push_all(&mut out, s);
        assert(out@ =~= s@);
        return out;
    }
    let mut i: usize = 0;
    assert(cs@.subrange(0, n as int) =~= s@);
    while i < n
        invariant
            cs@ == s@,
            fs@ == from@,
            n == cs@.len(),
            m == fs@.len(),
            m > 0,
            i <= n,
            replace_all(s@, from@, to@) == out@ + replace_all(cs@.subrange(i as int, n as int), from@, to@),
        decreases n - i,
    {
        let ghost rest = cs@.subrange(i as int, n as int);
        if m <= n - i && matches_at(&cs, i, &fs) {
            assert(rest.subrange(0, m as int) =~= cs@.subrange(i as int, (i + m) as int));
            assert(rest.subrange(m as int, rest.len() as int) =~= cs@.subrange((i + m) as int, n as int));
            let ghost before = out@;
            push_all(&mut out, to);
            i = i + m;
            assert(out@ + replace_all(cs@.subrange(i as int, n as int), from@, to@) =~= before + (to@
                + replace_all(rest.subrange(m as int, rest.len() as int), from@, to@)));
        } else {
            if m <= n - i {
                assert(rest.subrange(0, m as int) =~= cs@.subrange(i as int, (i + m) as int));
            }
            assert(rest.drop_first() =~= cs@.subrange(i + 1, n as int));
            let ghost before = out@;
            push_char(&mut out, cs[i]);
            i = i + 1;
            assert(out@ + replace_all(cs@.subrange(i as int, n as int), from@, to@) =~= before + (seq![
                rest[0],
            ] + replace_all(rest.drop_first(), from@, to@)));
        }
    }
    assert(cs@.subrange(n as int, n as int).len() == 0);
    assert(out@ =~= out@ + replace_all(cs@.subrange(n as int, n as int), from@, to@));
    out
}

} // verus!

verus! {

/// The placeholder that an insert statement holds for a value: `$name$`.
pub open spec fn placeholder(name: Seq<char>) -> Seq<char> {
    seq!['$'] + name + seq!['$']
}

/// The insert statement with each named placeholder, in order, replaced by the
/// text of that field of the record.
pub open spec fn fill_query(q: Seq<char>, names: Seq<Seq<char>>, em: Seq<(Seq<char>, JsonModel)>) -> Seq<char>
    decreases names.len(),
{
    if names.len() == 0 {
        q
    } else {
        replace_all(
            fill_query(q, names.drop_last(), em),
            placeholder(names.last()),
            query_value_text(find_in(em, names.last())),
        )
    }
}

/// Fills the placeholders of `insert_query` with the values of the record (see `fill_query`).
pub fn create_insert_query(insert_query: &String, value_names: Vec<String>, values: &Vec<JsonEntry>) -> (r: Result<
    String,
    ExpectedError,
>)
    ensures
        r matches Ok(q) && q@ == fill_query(
            insert_query@,
            crate::convert::strings_model(value_names@),
            entries_model(values@),
        ),
{
    let ghost names = crate::convert::strings_model(value_names@);
    let ghost em = entries_model(values@);
    let mut temp_query = insert_query.clone();
    let mut i: usize = 0;
    while i < value_names.len()
        invariant
            names == crate::convert::strings_model(value_names@),
            em == entries_model(values@),
            i <= value_names@.len(),
            temp_query@ == fill_query(insert_query@, names.subrange(0, i as int), em),
        decreases value_names@.len() - i,
    {
        let name = value_names[i].as_str();
        let to_value = get_query_value(values, name);
        let mut from = String::new();
        push_char(&mut from, '$');
        push_all(&mut from, name);
        push_char(&mut from, '$');
        assert(from@ =~= placeholder(names[i as int]));
        temp_query = replace_str(temp_query.as_str(), from.as_str(), to_value.as_str());
        assert(names.subrange(0, i + 1).drop_last() =~= names.subrange(0, i as int));
        i = i + 1;
    }
    assert(names.subrange(0, i as int) =~= names);
    Ok(temp_query)
}

/// `xs` joined with `sep`.
pub open spec fn join_with(xs: Seq<Seq<char>>, sep: Seq<char>) -> Seq<char>
    decreases xs.len(),
{
    if xs.len() == 0 {
        Seq::empty()
    } else if xs.len() == 1 {
        xs[0]
    } else {
        join_with(xs.drop_last(), sep) + sep + xs.last()
    }
}

/// `xs` joined with `, `.
pub open spec fn join_comma(xs: Seq<Seq<char>>) -> Seq<char> {
    join_with(xs, seq![',', ' '])
}

/// A column of a table schema.
#[derive(Debug)]
pub struct Attribute {
    pub name: String,
    pub description: String,
    pub type_: String,
    pub max_length: Option<u32>,
    pub nullable: bool,
}

impl Attribute {
    pub fn new(name: String, description: String, type_: String, max_length: Option<u32>, nullable: bool) -> (r: Attribute)
        ensures
            r.name == name,
            r.description == description,
            r.type_ == type_,
            r.max_length == max_length,
            r.nullable == nullable,
    {
        Attribute { name, description, type_, max_length, nullable }
    }
}

/// A table schema with the statements derived from it.
#[derive(Debug)]
pub struct PostgresSchema {
    pub schema_name: String,
    pub attributes: Vec<Attribute>,
    pub create_table: String,
    pub create_index: Vec<String>,
    pub insert_query: String,
}

pub open spec fn column_names(attributes: Seq<Attribute>) -> Seq<Seq<char>> {
    attributes.map_values(|a: Attribute| a.name@)
}

pub open spec fn value_placeholders(attributes: Seq<Attribute>) -> Seq<Seq<char>> {
    attributes.map_values(|a: Attribute| placeholder(a.description@))
}

/// `INSERT INTO schema (columns) VALUES ($description$, ...)`.
pub open spec fn insert_query_text(schema_name: Seq<char>, attributes: Seq<Attribute>) -> Seq<char> {
    "INSERT INTO "@ + schema_name + " ("@ + join_comma(column_names(attributes)) + ") VALUES ("@
        + join_comma(value_placeholders(attributes)) + ")"@
}

/// Appends `xs` joined with `sep` to `out`.
pub(crate) fn push_joined_with(out: &mut String, xs: &Vec<String>, sep: &str)
    ensures
        final(out)@ == old(out)@ + join_with(crate::convert::strings_model(xs@), sep@),
{
    let ghost m = crate::convert::strings_model(xs@);
    let mut i: usize = 0;
    assert(m.subrange(0, 0) =~= Seq::<Seq<char>>::empty());
    while i < xs.len()
        invariant
            m == crate::convert::strings_model(xs@),
            i <= xs@.len(),
            out@ == old(out)@ + join_with(m.subrange(0, i as int), sep@),
        decreases xs@.len() - i,
    {
        let ghost before = out@;
        if i > 0 {
            push_all(out, sep);
        }
        push_all(out, xs[i].as_str());
        let ghost sub = m.subrange(0, i + 1);
        assert(sub.drop_last() =~= m.subrange(0, i as int));
        assert(sub.last() == xs@[i as int]@);
        assert(out@ =~= old(out)@ + join_with(sub, sep@));
        i = i + 1;
    }
    assert(m.subrange(0, i as int) =~= m);
}

/// Appends `xs` joined with `, ` to `out`.
pub(crate) fn push_joined(out: &mut String, xs: &Vec<String>)
    ensures
        final(out)@ == old(out)@ + join_comma(crate::convert::strings_model(xs@)),
{
    proof {
        reveal_strlit(", ");
    }
    assert(", "@ =~= seq![',', ' ']);
    push_joined_with(out, xs, ", ");
}

impl PostgresSchema {
    /// The insert statement of a schema, with a `$description$` placeholder per column.
    pub fn insert_query(schema_name: String, attributes: &Vec<Attribute>) -> (r: String)
        ensures
            r@ == insert_query_text(schema_name@, attributes@),
    {
        let mut column_vec: Vec<String> = Vec::new();
        let mut value_vec: Vec<String> = Vec::new();
        let mut i: usize = 0;
        while i < attributes.len()
            invariant
                i <= attributes@.len(),
                column_vec@.len() == i,
                value_vec@.len() == i,
                forall|k: int| 0 <= k < i ==> (#[trigger] column_vec@[k])@ == attributes@[k].name@,
                forall|k: int|
                    0 <= k < i ==> (#[trigger] value_vec@[k])@ == placeholder(attributes@[k].description@),
            decreases attributes@.len() - i,
        {
            column_vec.push(attributes[i].name.clone());
            let mut v = String::new();
            push_char(&mut v, '$');
            push_all(&mut v, attributes[i].description.as_str());
            push_char(&mut v, '$');
            assert(v@ =~= placeholder(attributes@[i as int].description@));
            value_vec.push(v);
            i = i + 1;
        }
        assert(crate::convert::strings_model(column_vec@) =~= column_names(attributes@));
        assert(crate::convert::strings_model(value_vec@) =~= value_placeholders(attributes@));
        let mut r = "INSERT INTO ".to_string();
        push_all(&mut r, schema_name.as_str());
        push_all(&mut r, " (");
        push_joined(&mut r, &column_vec);
        push_all(&mut r, ") VALUES (");
        push_joined(&mut r, &value_vec);
        push_all(&mut r, ")");
        assert(r@ =~= insert_query_text(schema_name@, attributes@));
        r
    }

    /// `NULL` for a nullable column, `NOT NULL` otherwise.
    pub fn null_or_not(nullable: bool) -> (r: String)
        ensures
            r@ == (if nullable {
                "NULL"@
            } else {
                "NOT NULL"@
            }),
    {
        if nullable {
            "NULL".to_string()
        } else {
            "NOT NULL".to_string()
        }
    }
}

} // verus!
