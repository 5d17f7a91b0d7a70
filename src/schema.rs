//! Loading a table schema from its JSON description, and the statements that
//! create its table and indexes.
use vstd::prelude::*;
use crate::convert::{decimal_text, decimal_value, is_u64_text, parse_u64, push_decimal, strings_model};
use crate::error::ExpectedError;
use crate::json::{entries_model, lookup, object_get, JsonEntry, JsonModel, JsonValue};
use crate::postgres::{
    column_type_of, convert_type, insert_query_text, join_comma, join_with, push_joined, push_joined_with,
    Attribute, PostgresSchema,
};
use crate::text::push_all;

verus! {

/// The content of an `Attribute`.
pub struct AttributeModel {
    pub name: Seq<char>,
    pub description: Seq<char>,
    pub type_: Seq<char>,
    pub max_length: Option<u32>,
    pub nullable: bool,
}

pub open spec fn attribute_model(a: Attribute) -> AttributeModel {
    AttributeModel {
        name: a.name@,
        description: a.description@,
        type_: a.type_@,
        max_length: a.max_length,
        nullable: a.nullable,
    }
}

pub open spec fn attributes_model(attrs: Seq<Attribute>) -> Seq<AttributeModel> {
    attrs.map_values(|a: Attribute| attribute_model(a))
}

/// `maxLength`: absent, or an unsigned integer (kept in 32 bits); `None` otherwise.
pub open spec fn max_length_of(v: Option<JsonModel>) -> Option<Option<u32>> {
    match v {
        None => Some(None),
        Some(JsonModel::Number(t)) => if is_u64_text(t) {
            Some(Some(decimal_value(t) as u32))
        } else {
            None
        },
        _ => None,
    }
}

/// `description`: a string, or the attribute's own name when absent; `None` otherwise.
pub open spec fn description_of(key: Seq<char>, v: Option<JsonModel>) -> Option<Seq<char>> {
    match v {
        None => Some(key),
        Some(JsonModel::Str(s)) => Some(s),
        _ => None,
    }
}

/// `type`: a type name, or `[name]`, or `[name, "null"]` for a nullable column.
pub open spec fn type_of(v: Option<JsonModel>) -> Option<(Seq<char>, bool)> {
    match v {
        Some(JsonModel::Str(s)) => Some((s, false)),
        Some(JsonModel::Array(items)) => if items.len() == 1 && items[0] is Str {
            Some((items[0]->Str_0, false))
        } else if items.len() == 2 && items[0] is Str && items[1] == JsonModel::Str("null"@) {
            Some((items[0]->Str_0, true))
        } else {
            None
        },
        _ => None,
    }
}

/// One attribute of the schema description; its type must have a column type.
pub open spec fn attribute_of(key: Seq<char>, v: JsonModel) -> Option<AttributeModel> {
    match v {
        JsonModel::Object(o) => match (
            max_length_of(lookup(o, "maxLength"@)),
            description_of(key, lookup(o, "description"@)),
            type_of(lookup(o, "type"@)),
        ) {
            (Some(size), Some(description), Some((t, nullable))) => if column_type_of(t) is Some {
                Some(AttributeModel { name: key, description, type_: t, max_length: size, nullable })
            } else {
                None
            },
            _ => None,
        },
        _ => None,
    }
}

pub open spec fn attributes_of(es: Seq<(Seq<char>, JsonModel)>) -> Option<Seq<AttributeModel>>
    decreases es.len(),
{
    if es.len() == 0 {
        Some(Seq::empty())
    } else {
        match (attributes_of(es.drop_last()), attribute_of(es.last().0, es.last().1)) {
            (Some(a), Some(b)) => Some(a.push(b)),
            _ => None,
        }
    }
}

/// A list of column names: an array of strings.
pub open spec fn key_list_of(v: JsonModel) -> Option<Seq<Seq<char>>> {
    match v {
        JsonModel::Array(items) => if forall|i: int| 0 <= i < items.len() ==> (#[trigger] items[i]) is Str {
            Some(items.map_values(|x: JsonModel| x->Str_0))
        } else {
            None
        },
        _ => None,
    }
}

pub open spec fn key_lists_of(items: Seq<JsonModel>) -> Option<Seq<Seq<Seq<char>>>>
    decreases items.len(),
{
    if items.len() == 0 {
        Some(Seq::empty())
    } else {
        match (key_lists_of(items.drop_last()), key_list_of(items.last())) {
            (Some(a), Some(b)) => Some(a.push(b)),
            _ => None,
        }
    }
}

/// The attributes, unique keys and indexes of a schema description.
pub open spec fn schema_parts(values: JsonModel) -> Option<(Seq<AttributeModel>, Seq<Seq<Seq<char>>>, Seq<Seq<Seq<char>>>)> {
    match values {
        JsonModel::Object(m) => match (lookup(m, "attributes"@), lookup(m, "uniques"@), lookup(m, "indexes"@)) {
            (Some(JsonModel::Object(ra)), Some(JsonModel::Array(u)), Some(JsonModel::Array(x))) => match (
                attributes_of(ra),
                key_lists_of(u),
                key_lists_of(x),
            ) {
                (Some(attrs), Some(us), Some(xs)) => Some((attrs, us, xs)),
                _ => None,
            },
            _ => None,
        },
        _ => None,
    }
}

pub open spec fn null_text(nullable: bool) -> Seq<char> {
    if nullable {
        "NULL"@
    } else {
        "NOT NULL"@
    }
}

/// `name type NULL`, or `name type(max) NOT NULL`, and so on.
pub open spec fn column_line(a: AttributeModel) -> Seq<char> {
    a.name + " "@ + column_type_of(a.type_)->0 + match a.max_length {
        Some(m) => "("@ + decimal_text(m as nat) + ")"@,
        None => Seq::empty(),
    } + " "@ + null_text(a.nullable)
}

pub open spec fn unique_line(schema: Seq<char>, keys: Seq<Seq<char>>) -> Seq<char> {
    "CONSTRAINT "@ + schema + "_"@ + join_with(keys, "_"@) + "_un UNIQUE ("@ + join_comma(keys) + ")"@
}

/// The lines of the table definition: the serial key, the columns, the primary
/// key, then the unique constraints.
pub open spec fn table_lines(schema: Seq<char>, attrs: Seq<AttributeModel>, uniques: Seq<Seq<Seq<char>>>) -> Seq<Seq<char>> {
    seq![schema + "_id serial8"@] + attrs.map_values(|a: AttributeModel| column_line(a)) + seq![
        "CONSTRAINT "@ + schema + "_pk PRIMARY KEY ("@ + schema + "_id)"@,
    ] + uniques.map_values(|k: Seq<Seq<char>>| unique_line(schema, k))
}

pub open spec fn create_table_text(schema: Seq<char>, attrs: Seq<AttributeModel>, uniques: Seq<Seq<Seq<char>>>) -> Seq<char> {
    "CREATE TABLE "@ + schema + " ("@ + join_comma(table_lines(schema, attrs, uniques)) + ")"@
}

pub open spec fn index_text(schema: Seq<char>, keys: Seq<Seq<char>>) -> Seq<char> {
    "CREATE INDEX "@ + schema + "_"@ + join_with(keys, "_"@) + "_idx ON "@ + schema + " USING btree ("@
        + join_comma(keys) + ")"@
}

fn parse_max_length(v: Option<&JsonValue>) -> (r: Result<Option<u32>, ExpectedError>)
    ensures
        match max_length_of(crate::json::found_model(v)) {
            Some(m) => r matches Ok(x) && x == m,
            None => r matches Err(e) && e is ParsingError,
        },
{
    match v {
        None => Ok(None),
        Some(JsonValue::Number(t)) => match parse_u64(t.as_str()) {
            Some(n) => Ok(Some(n as u32)),
            None => Err(ExpectedError::ParsingError("invalid size type".to_string())),
        },
        Some(_) => Err(ExpectedError::ParsingError("invalid size type".to_string())),
    }
}

fn parse_description(key: &String, v: Option<&JsonValue>) -> (r: Result<String, ExpectedError>)
    ensures
        match description_of(key@, crate::json::found_model(v)) {
            Some(d) => r matches Ok(x) && x@ == d,
            None => r matches Err(e) && e is ParsingError,
        },
{
    match v {
        None => Ok(key.clone()),
        Some(JsonValue::Str(s)) => Ok(s.clone()),
        Some(_) => Err(ExpectedError::ParsingError("invalid description type".to_string())),
    }
}

fn parse_type(v: Option<&JsonValue>) -> (r: Result<(String, bool), ExpectedError>)
    ensures
        match type_of(crate::json::found_model(v)) {
            Some((t, n)) => r matches Ok(x) && x.0@ == t && x.1 == n,
            None => r matches Err(e) && e is ParsingError,
        },
{
    match v {
        Some(JsonValue::Str(s)) => Ok((s.clone(), false)),
        Some(JsonValue::Array(items)) => {
            proof {
                crate::json::lemma_array_model(*items);
            }
            if items.len() == 1 {
                if let JsonValue::Str(s) = &items[0] {
                    return Ok((s.clone(), false));
                }
            } else if items.len() == 2 {
                if let JsonValue::Str(s) = &items[0] {
                    if let JsonValue::Str(n) = &items[1] {
                        proof {
                            reveal_strlit("null");
                        }
                        if crate::text::str_eq(n.as_str(), "null") {
                            return Ok((s.clone(), true));
                        }
                    }
                }
            }
            Err(ExpectedError::ParsingError("invalid type".to_string()))
        },
        _ => Err(ExpectedError::ParsingError("invalid type".to_string())),
    }
}

fn parse_attribute(key: &String, v: &JsonValue) -> (r: Result<Attribute, ExpectedError>)
    ensures
        match attribute_of(key@, v@) {
            Some(a) => r matches Ok(x) && attribute_model(x) == a,
            None => r matches Err(e) && e is ParsingError,
        },
{
    let o = match v {
        JsonValue::Object(o) => o,
        _ => {
            return Err(ExpectedError::ParsingError("invalid attribute".to_string()));
        },
    };
    proof {
        crate::json::lemma_object_model(*o);
    }
    let size = parse_max_length(object_get(o, "maxLength"))?;
    let description = parse_description(key, object_get(o, "description"))?;
    let (type_, nullable) = parse_type(object_get(o, "type"))?;
    if convert_type(type_.clone()).is_err() {
        return Err(ExpectedError::ParsingError("unsupported type".to_string()));
    }
    Ok(Attribute::new(key.clone(), description, type_, size, nullable))
}

fn parse_attributes(ra: &Vec<JsonEntry>) -> (r: Result<Vec<Attribute>, ExpectedError>)
    ensures
        match attributes_of(entries_model(ra@)) {
            Some(a) => r matches Ok(x) && attributes_model(x@) == a,
            None => r matches Err(e) && e is ParsingError,
        },
{
    let ghost em = entries_model(ra@);
    let mut out: Vec<Attribute> = Vec::new();
    let mut i: usize = 0;
    assert(em.subrange(0, 0) =~= Seq::<(Seq<char>, JsonModel)>::empty());
    while i < ra.len()
        invariant
            em == entries_model(ra@),
            i <= ra@.len(),
            attributes_of(em.subrange(0, i as int)) == Some(attributes_model(out@)),
        decreases ra@.len() - i,
    {
        let ghost next = em.subrange(0, i + 1);
        assert(next.drop_last() =~= em.subrange(0, i as int));
        assert(next.last() == (ra@[i as int].key@, ra@[i as int].value@));
        match parse_attribute(&ra[i].key, &ra[i].value) {
            Ok(a) => {
                let ghost before = out@;
                out.push(a);
                assert(attributes_model(out@) =~= attributes_model(before).push(attribute_model(a)));
            },
            Err(e) => {
                proof {
                    lemma_attributes_none_prefix(em, i + 1);
                }
                return Err(e);
            },
        }
        i = i + 1;
    }
    assert(em.subrange(0, i as int) =~= em);
    Ok(out)
}

proof fn lemma_attributes_none_prefix(es: Seq<(Seq<char>, JsonModel)>, k: int)
    requires
        0 <= k <= es.len(),
        attributes_of(es.subrange(0, k)) is None,
    ensures
        attributes_of(es) is None,
    decreases es.len() - k,
{
    if k < es.len() {
        assert(es.subrange(0, k + 1).drop_last() =~= es.subrange(0, k));
        lemma_attributes_none_prefix(es, k + 1);
    } else {
        assert(es.subrange(0, k) =~= es);
    }
}

proof fn lemma_key_lists_none_prefix(items: Seq<JsonModel>, k: int)
    requires
        0 <= k <= items.len(),
        key_lists_of(items.subrange(0, k)) is None,
    ensures
        key_lists_of(items) is None,
    decreases items.len() - k,
{
    if k < items.len() {
        assert(items.subrange(0, k + 1).drop_last() =~= items.subrange(0, k));
        lemma_key_lists_none_prefix(items, k + 1);
    } else {
        assert(items.subrange(0, k) =~= items);
    }
}

pub open spec fn key_lists_model(ls: Seq<Vec<String>>) -> Seq<Seq<Seq<char>>> {
    ls.map_values(|l: Vec<String>| strings_model(l@))
}

fn parse_key_list(v: &JsonValue) -> (r: Result<Vec<String>, ExpectedError>)
    ensures
        match key_list_of(v@) {
            Some(ks) => r matches Ok(x) && strings_model(x@) == ks,
            None => r matches Err(e) && e is ParsingError,
        },
{
    let items = match v {
        JsonValue::Array(items) => items,
        _ => {
            return Err(ExpectedError::ParsingError("invalid key list".to_string()));
        },
    };
    proof {
        crate::json::lemma_array_model(*items);
    }
    let ghost im = items@.map_values(|x: JsonValue| x@);
    let mut out: Vec<String> = Vec::new();
    let mut i: usize = 0;
    while i < items.len()
        invariant
            *v == JsonValue::Array(*items),
            v@ == JsonModel::Array(im),
            im == items@.map_values(|x: JsonValue| x@),
            i <= items@.len(),
            out@.len() == i,
            forall|k: int| 0 <= k < i ==> #[trigger] im[k] == JsonModel::Str(out@[k]@),
        decreases items@.len() - i,
    {
        assert(im[i as int] == items@[i as int]@);
        match &items[i] {
            JsonValue::Str(s) => {
                let ghost before = out@;
                out.push(s.clone());
                assert forall|k: int| 0 <= k < i + 1 implies #[trigger] im[k] == JsonModel::Str(out@[k]@) by {
                    if k < i {
                        assert(out@[k] == before[k]);
                    }
                }
            },
            _ => {
                assert(!(im[i as int] is Str));
                return Err(ExpectedError::ParsingError("invalid key list".to_string()));
            },
        }
        i = i + 1;
    }
    assert forall|k: int| 0 <= k < im.len() implies (#[trigger] im[k]) is Str by {
        assert(im[k] == JsonModel::Str(out@[k]@));
    }
    assert(strings_model(out@) =~= im.map_values(|x: JsonModel| x->Str_0));
    Ok(out)
}

fn parse_key_lists(items: &Vec<JsonValue>) -> (r: Result<Vec<Vec<String>>, ExpectedError>)
    ensures
        match key_lists_of(items@.map_values(|x: JsonValue| x@)) {
            Some(ks) => r matches Ok(x) && key_lists_model(x@) == ks,
            None => r matches Err(e) && e is ParsingError,
        },
{
    let ghost im = items@.map_values(|x: JsonValue| x@);
    let mut out: Vec<Vec<String>> = Vec::new();
    let mut i: usize = 0;
    assert(im.subrange(0, 0) =~= Seq::<JsonModel>::empty());
    while i < items.len()
        invariant
            im == items@.map_values(|x: JsonValue| x@),
            i <= items@.len(),
            key_lists_of(im.subrange(0, i as int)) == Some(key_lists_model(out@)),
        decreases items@.len() - i,
    {
        let ghost next = im.subrange(0, i + 1);
        assert(next.drop_last() =~= im.subrange(0, i as int));
        assert(next.last() == items@[i as int]@);
        match parse_key_list(&items[i]) {
            Ok(ks) => {
                let ghost before = out@;
                out.push(ks);
                assert(key_lists_model(out@) =~= key_lists_model(before).push(strings_model(ks@)));
            },
            Err(e) => {
                proof {
                    lemma_key_lists_none_prefix(im, i + 1);
                }
                return Err(e);
            },
        }
        i = i + 1;
    }
    assert(im.subrange(0, i as int) =~= im);
    Ok(out)
}

} // verus!

verus! {

fn column_line_of(a: &Attribute) -> (r: String)
    requires
        column_type_of(a.type_@) is Some,
    ensures
        r@ == column_line(attribute_model(*a)),
{
    let ty = match convert_type(a.type_.clone()) {
        Ok(t) => t,
        Err(_) => String::new(),
    };
    let mut r = a.name.clone();
    push_all(&mut r, " ");
    push_all(&mut r, ty.as_str());
    let ghost mid = r@;
    match a.max_length {
        Some(m) => {
            push_all(&mut r, "(");
            push_decimal(&mut r, m as u64);
            push_all(&mut r, ")");
        },
        None => {},
    }
    let ghost sized = r@;
    push_all(&mut r, " ");
    let n = PostgresSchema::null_or_not(a.nullable);
    push_all(&mut r, n.as_str());
    assert(r@ =~= column_line(attribute_model(*a)));
    r
}

fn unique_line_of(schema_name: &String, keys: &Vec<String>) -> (r: String)
    ensures
        r@ == unique_line(schema_name@, strings_model(keys@)),
{
    let mut r = "CONSTRAINT ".to_string();
    push_all(&mut r, schema_name.as_str());
    push_all(&mut r, "_");
    push_joined_with(&mut r, keys, "_");
    push_all(&mut r, "_un UNIQUE (");
    push_joined(&mut r, keys);
    push_all(&mut r, ")");
    assert(r@ =~= unique_line(schema_name@, strings_model(keys@)));
    r
}

impl PostgresSchema {
    /// The `CREATE TABLE` statement of the schema (see `create_table_text`).
    pub fn create_table(schema_name: String, attributes: &Vec<Attribute>, uniques: &Vec<Vec<String>>) -> (r: String)
        requires
            forall|i: int| 0 <= i < attributes@.len() ==> column_type_of((#[trigger] attributes@[i]).type_@) is Some,
        ensures
            r@ == create_table_text(schema_name@, attributes_model(attributes@), key_lists_model(uniques@)),
    {
        let ghost am = attributes_model(attributes@);
        let ghost um = key_lists_model(uniques@);
        let mut lines: Vec<String> = Vec::new();
        let mut first = schema_name.clone();
        push_all(&mut first, "_id serial8");
        lines.push(first);
        let mut i: usize = 0;
        while i < attributes.len()
            invariant
                am == attributes_model(attributes@),
                forall|k: int| 0 <= k < attributes@.len() ==> column_type_of((#[trigger] attributes@[k]).type_@) is Some,
                i <= attributes@.len(),
                lines@.len() == i + 1,
                strings_model(lines@) == seq![schema_name@ + "_id serial8"@] + am.subrange(0, i as int).map_values(
                    |a: AttributeModel| column_line(a),
                ),
            decreases attributes@.len() - i,
        {
            let ghost before = lines@;
            let line = column_line_of(&attributes[i]);
            lines.push(line);
            assert(strings_model(lines@) =~= seq![schema_name@ + "_id serial8"@] + am.subrange(0, i + 1).map_values(
                |a: AttributeModel| column_line(a),
            )) by {
                assert(strings_model(lines@) =~= strings_model(before).push(line@));
                assert(am.subrange(0, i + 1).map_values(|a: AttributeModel| column_line(a)) =~= am.subrange(
                    0,
                    i as int,
                ).map_values(|a: AttributeModel| column_line(a)).push(column_line(am[i as int])));
            }
            i = i + 1;
        }
        assert(am.subrange(0, i as int) =~= am);
        let mut pk = "CONSTRAINT ".to_string();
        push_all(&mut pk, schema_name.as_str());
        push_all(&mut pk, "_pk PRIMARY KEY (");
        push_all(&mut pk, schema_name.as_str());
        push_all(&mut pk, "_id)");
        let ghost before_pk = lines@;
        lines.push(pk);
        let ghost head = strings_model(lines@);
        assert(head =~= strings_model(before_pk).push(pk@));
        let mut j: usize = 0;
        while j < uniques.len()
            invariant
                um == key_lists_model(uniques@),
                j <= uniques@.len(),
                strings_model(lines@) == head + um.subrange(0, j as int).map_values(
                    |k: Seq<Seq<char>>| unique_line(schema_name@, k),
                ),
            decreases uniques@.len() - j,
        {
            let ghost before = lines@;
            let line = unique_line_of(&schema_name, &uniques[j]);
            lines.push(line);
            assert(strings_model(lines@) =~= head + um.subrange(0, j + 1).map_values(
                |k: Seq<Seq<char>>| unique_line(schema_name@, k),
            )) by {
                assert(strings_model(lines@) =~= strings_model(before).push(line@));
                assert(um.subrange(0, j + 1).map_values(|k: Seq<Seq<char>>| unique_line(schema_name@, k))
                    =~= um.subrange(0, j as int).map_values(|k: Seq<Seq<char>>| unique_line(schema_name@, k)).push(
                    unique_line(schema_name@, um[j as int]),
                ));
            }
            j = j + 1;
        }
        assert(um.subrange(0, j as int) =~= um);
        assert(strings_model(lines@) =~= table_lines(schema_name@, am, um));
        let mut r = "CREATE TABLE ".to_string();
        push_all(&mut r, schema_name.as_str());
        push_all(&mut r, " (");
        push_joined(&mut r, &lines);
        push_all(&mut r, ")");
        assert(r@ =~= create_table_text(schema_name@, am, um));
        r
    }

    /// The `CREATE INDEX` statements of the schema, one per index (see `index_text`).
    pub fn create_index(schema_name: String, indexes: &Vec<Vec<String>>) -> (r: Vec<String>)
        ensures
            strings_model(r@) == key_lists_model(indexes@).map_values(
                |k: Seq<Seq<char>>| index_text(schema_name@, k),
            ),
    {
        let ghost xm = key_lists_model(indexes@);
        let mut out: Vec<String> = Vec::new();
        let mut j: usize = 0;
        while j < indexes.len()
            invariant
                xm == key_lists_model(indexes@),
                j <= indexes@.len(),
                strings_model(out@) == xm.subrange(0, j as int).map_values(
                    |k: Seq<Seq<char>>| index_text(schema_name@, k),
                ),
            decreases indexes@.len() - j,
        {
            let keys = &indexes[j];
            let mut q = "CREATE INDEX ".to_string();
            push_all(&mut q, schema_name.as_str());
            push_all(&mut q, "_");
            push_joined_with(&mut q, keys, "_");
            push_all(&mut q, "_idx ON ");
            push_all(&mut q, schema_name.as_str());
            push_all(&mut q, " USING btree (");
            push_joined(&mut q, keys);
            push_all(&mut q, ")");
            assert(q@ =~= index_text(schema_name@, xm[j as int]));
            let ghost before = out@;
            out.push(q);
            assert(strings_model(out@) =~= xm.subrange(0, j + 1).map_values(
                |k: Seq<Seq<char>>| index_text(schema_name@, k),
            )) by {
                assert(strings_model(out@) =~= strings_model(before).push(q@));
            }
            j = j + 1;
        }
        assert(xm.subrange(0, j as int) =~= xm);
        out
    }

    /// Loads a schema from its description `{attributes: {...}, uniques: [[...]], indexes: [[...]]}`
    /// (see `schema_parts`), with its create, index and insert statements.
    /// A description of another shape, or with a type that has no column type,
    /// fails with `ParsingError`.
    pub fn new(schema_name: String, values: &JsonValue) -> (r: Result<Self, ExpectedError>)
        ensures
            match schema_parts(values@) {
                Some((attrs, us, xs)) => r matches Ok(s) && s.schema_name@ == schema_name@
                    && attributes_model(s.attributes@) == attrs
                    && s.create_table@ == create_table_text(schema_name@, attrs, us)
                    && strings_model(s.create_index@) == xs.map_values(
                    |k: Seq<Seq<char>>| index_text(schema_name@, k),
                ) && s.insert_query@ == insert_query_text(schema_name@, s.attributes@),
                None => r matches Err(e) && e is ParsingError,
            },
    {
        let map = match values {
            JsonValue::Object(m) => m,
            _ => {
                return Err(ExpectedError::ParsingError("invalid value type".to_string()));
            },
        };
        proof {
            crate::json::lemma_object_model(*map);
        }
        let raw_attributes = match object_get(map, "attributes") {
            Some(JsonValue::Object(ra)) => ra,
            _ => {
                return Err(ExpectedError::ParsingError("attributes does not exist".to_string()));
            },
        };
        proof {
            crate::json::lemma_object_model(*raw_attributes);
        }
        let attributes = parse_attributes(raw_attributes)?;
        let uniques = match object_get(map, "uniques") {
            Some(JsonValue::Array(u)) => {
                proof {
                    crate::json::lemma_array_model(*u);
                }
                parse_key_lists(u)?
            },
            _ => {
                return Err(ExpectedError::ParsingError("uniques does not exist".to_string()));
            },
        };
        let indexes = match object_get(map, "indexes") {
            Some(JsonValue::Array(x)) => {
                proof {
                    crate::json::lemma_array_model(*x);
                }
                parse_key_lists(x)?
            },
            _ => {
                return Err(ExpectedError::ParsingError("indexes does not exist".to_string()));
            },
        };
        proof {
            let am = attributes_model(attributes@);
            assert forall|i: int| 0 <= i < attributes@.len() implies column_type_of((#[trigger] attributes@[i]).type_@) is Some by {
                lemma_attributes_typed(entries_model(raw_attributes@), i);
                assert(am[i] == attribute_model(attributes@[i]));
            }
        }
        let create_table = Self::create_table(schema_name.clone(), &attributes, &uniques);
        let create_index = Self::create_index(schema_name.clone(), &indexes);
        let insert_query = Self::insert_query(schema_name.clone(), &attributes);
        Ok(PostgresSchema { schema_name, attributes, create_table, create_index, insert_query })
    }
}

proof fn lemma_attributes_typed(es: Seq<(Seq<char>, JsonModel)>, i: int)
    requires
        attributes_of(es) is Some,
        0 <= i < attributes_of(es)->0.len(),
    ensures
        column_type_of(attributes_of(es)->0[i].type_) is Some,
    decreases es.len(),
{
    if es.len() > 0 {
        let prev = attributes_of(es.drop_last())->0;
        if i < prev.len() {
            lemma_attributes_typed(es.drop_last(), i);
        }
    }
}

} // verus!
