//! TypeScript `export type` declarations.

use vstd::prelude::*;

use crate::export::{ExportBackend, Field, FieldType};
use crate::text::{concat2, concat3, join, join_strings, owned};

verus! {

/// Emits TypeScript `export type` declarations.
pub struct TypeScript;

pub open spec fn strs_view(v: Seq<&str>) -> Seq<Seq<char>> {
    v.map_values(|s: &str| s@)
}

/// ` * line`, or ` *` for an empty line.
pub open spec fn doc_line(line: Seq<char>) -> Seq<char> {
    if line.len() == 0 { " *"@ } else { " * "@ + line }
}

/// A JSDoc block around `lines`; nothing for no lines.
pub open spec fn doc_block(lines: Seq<Seq<char>>) -> Seq<char> {
    if lines.len() == 0 {
        seq![]
    } else {
        "/**\n"@ + join(lines.map_values(|l: Seq<char>| doc_line(l)), "\n"@) + "\n */\n"@
    }
}

/// The TypeScript spelling of a field type.
pub open spec fn ts_type(ty: FieldType) -> Seq<char>
    decreases ty,
{
    match ty {
        FieldType::Bool => "boolean"@,
        FieldType::Number => "number"@,
        FieldType::String => "string"@,
        FieldType::Timestamp => "string"@,
        FieldType::Uuid => "string"@,
        FieldType::Json => "unknown"@,
        FieldType::Array(inner) => "Array<"@ + ts_type(*inner) + ">"@,
        FieldType::Record(value) => "Record<string, "@ + ts_type(*value) + ">"@,
        FieldType::Named(name) => name@,
    }
}

/// The value type of a TypeScript `Record<string, V>` type, read back from
/// its text; nothing for text of another shape.
pub open spec fn record_value_text(text: Seq<char>) -> Option<Seq<char>> {
    let open = "Record<string, "@;
    if text.len() > open.len() && text.take(open.len() as int) == open && text.last() == '>' {
        Some(text.subrange(open.len() as int, text.len() - 1))
    } else {
        None
    }
}

/// The element type of a TypeScript `Array<T>` type, read back from its
/// text; nothing for text of another shape.
pub open spec fn array_element_text(text: Seq<char>) -> Option<Seq<char>> {
    let open = "Array<"@;
    if text.len() > open.len() && text.take(open.len() as int) == open && text.last() == '>' {
        Some(text.subrange(open.len() as int, text.len() - 1))
    } else {
        None
    }
}

/// A map field reads back as a TypeScript record of its value type and a
/// list field as an array of its element type; neither reads as the
/// other, and no scalar reads as either.
pub proof fn law_ts_containers(ty: FieldType)
    ensures
        match ty {
            FieldType::Record(value) => record_value_text(ts_type(ty)) == Some(ts_type(*value))
                && array_element_text(ts_type(ty)) is None,
            FieldType::Array(inner) => array_element_text(ts_type(ty)) == Some(ts_type(*inner))
                && record_value_text(ts_type(ty)) is None,
            FieldType::Named(_) => true,
            _ => record_value_text(ts_type(ty)) is None && array_element_text(ts_type(ty)) is None,
        },
{
    reveal_strlit("Record<string, ");
    reveal_strlit("Array<");
    reveal_strlit(">");
    reveal_strlit("boolean");
    reveal_strlit("number");
    reveal_strlit("string");
    reveal_strlit("unknown");
    let rec = "Record<string, "@;
    let arr = "Array<"@;
    assert(rec.len() == 15 && rec[0] == 'R');
    assert(arr.len() == 6 && arr[0] == 'A');
    assert(">"@.len() == 1 && ">"@[0] == '>');
    let t = ts_type(ty);
    match ty {
        FieldType::Record(value) => {
            let v = ts_type(*value);
            assert(t == rec + v + ">"@);
            assert(t.take(15) =~= rec);
            assert(t.last() == '>');
            assert(t.subrange(15, t.len() - 1) =~= v);
            assert(t.take(6)[0] == 'R');
        },
        FieldType::Array(inner) => {
            let v = ts_type(*inner);
            assert(t == arr + v + ">"@);
            assert(t.take(6) =~= arr);
            assert(t.last() == '>');
            assert(t.subrange(6, t.len() - 1) =~= v);
            if t.len() > 15 {
                assert(t.take(15)[0] == 'A');
            }
        },
        FieldType::Named(_) => {},
        FieldType::Bool => {
            assert("boolean"@.len() == 7 && "boolean"@[6] == 'n');
        },
        FieldType::Number => {
            assert("number"@.len() == 6 && "number"@[5] == 'r');
        },
        FieldType::Json => {
            assert("unknown"@.len() == 7 && "unknown"@[6] == 'n');
        },
        _ => {
            assert("string"@.len() == 6 && "string"@[5] == 'g');
        },
    }
}

/// The kinds of JSON value a field can carry.
pub enum JsonKind {
    Boolean,
    Number,
    Text,
    List,
    Object,
}

/// Whether a value of kind `k` is one that the TypeScript primitive type
/// named `text` admits (`unknown` admits every value); nothing for text
/// that names no primitive.
pub open spec fn ts_primitive_admits(text: Seq<char>, k: JsonKind) -> Option<bool> {
    if text == "boolean"@ {
        Some(k is Boolean)
    } else if text == "number"@ {
        Some(k is Number)
    } else if text == "string"@ {
        Some(k is Text)
    } else if text == "unknown"@ {
        Some(true)
    } else {
        None
    }
}

/// The JSON values a scalar field type carries: booleans, numbers, text
/// (timestamps and UUIDs travel as text), or anything for raw JSON.
pub open spec fn scalar_carries(ty: FieldType, k: JsonKind) -> Option<bool> {
    match ty {
        FieldType::Bool => Some(k is Boolean),
        FieldType::Number => Some(k is Number),
        FieldType::String => Some(k is Text),
        FieldType::Timestamp => Some(k is Text),
        FieldType::Uuid => Some(k is Text),
        FieldType::Json => Some(true),
        _ => None,
    }
}

/// A scalar field type renders to the TypeScript primitive that admits
/// exactly the JSON values the field carries.
pub proof fn law_ts_scalars(ty: FieldType, k: JsonKind)
    requires
        scalar_carries(ty, k) is Some,
    ensures
        ts_primitive_admits(ts_type(ty), k) == scalar_carries(ty, k),
{
    reveal_strlit("boolean");
    reveal_strlit("number");
    reveal_strlit("string");
    reveal_strlit("unknown");
    assert("boolean"@.len() == 7 && "boolean"@[0] == 'b');
    assert("number"@.len() == 6 && "number"@[0] == 'n');
    assert("string"@.len() == 6 && "string"@[0] == 's');
    assert("unknown"@.len() == 7 && "unknown"@[0] == 'u');
}

/// `name: type, ` (with `?` after the name when optional).
pub open spec fn field_entry(f: Field) -> Seq<char> {
    f.name@ + (if f.optional { "?"@ } else { seq![] }) + ": "@ + ts_type(*f.ty) + ", "@
}

pub open spec fn concat_all(parts: Seq<Seq<char>>) -> Seq<char>
    decreases parts.len(),
{
    if parts.len() == 0 { seq![] } else { concat_all(parts.drop_last()) + parts.last() }
}

pub open spec fn struct_text(name: Seq<char>, docs: Seq<char>, fields: Seq<Field>) -> Seq<char> {
    docs + "export type "@ + name + " = { "@ + concat_all(fields.map_values(|f: Field| field_entry(f))) + "};"@
}

pub open spec fn enum_text(name: Seq<char>, docs: Seq<char>, variants: Seq<Seq<char>>) -> Seq<char> {
    docs + "export type "@ + name + " = "@ + join(variants.map_values(|v: Seq<char>| "\""@ + v + "\""@), " | "@) + ";"@
}

pub open spec fn import_text(module: Seq<char>, names: Seq<Seq<char>>) -> Seq<char> {
    "import type { "@ + join(names, ", "@) + " } from \""@ + module + "\";"@
}

fn type_text(ty: &FieldType) -> (s: String)
    ensures
        s@ == ts_type(*ty),
    decreases ty,
{
    match ty {
        FieldType::Bool => owned("boolean"),
        FieldType::Number => owned("number"),
        FieldType::String | FieldType::Timestamp | FieldType::Uuid => owned("string"),
        FieldType::Json => owned("unknown"),
        FieldType::Array(inner) => concat3("Array<", type_text(inner).as_str(), ">"),
        FieldType::Record(value) => concat3("Record<string, ", type_text(value).as_str(), ">"),
        FieldType::Named(name) => owned(name),
    }
}

impl ExportBackend for TypeScript {
    fn doc(&self, lines: &[&str]) -> (block: String)
        ensures
            block@ == doc_block(strs_view(lines@)),
    {
        if lines.len() == 0 {
            proof { reveal_strlit(""); }
            return String::new();
        }
        let ghost ls = strs_view(lines@);
        let mut parts: Vec<String> = Vec::new();
        let mut i: usize = 0;
        while i < lines.len()
            invariant
                i <= lines@.len(),
                ls == strs_view(lines@),
                parts@.map_values(|p: String| p@) == ls.map_values(|l: Seq<char>| doc_line(l)).take(i as int),
            decreases lines@.len() - i,
        {
            let line = lines[i];
            let p = if line.unicode_len() == 0 { owned(" *") } else { concat2(" * ", line) };
            let ghost pv = p@;
            let ghost before = parts@;
            parts.push(p);
            assert(ls[i as int] == line@);
            assert(parts@.map_values(|p: String| p@) =~= before.map_values(|p: String| p@).push(pv));
            assert(parts@.map_values(|p: String| p@) =~= ls.map_values(|l: Seq<char>| doc_line(l)).take(i + 1));
            i = i + 1;
        }
        assert(ls.map_values(|l: Seq<char>| doc_line(l)).take(lines@.len() as int) =~= ls.map_values(|l: Seq<char>| doc_line(l)));
        let body = join_strings(&parts, "\n");
        concat3("/**\n", body.as_str(), "\n */\n")
    }

    fn type_expr(&self, ty: &FieldType) -> (s: String)
        ensures
            s@ == ts_type(*ty),
    {
        type_text(ty)
    }

    fn struct_decl(&self, name: &str, docs: &str, fields: &[Field]) -> (decl: String)
        ensures
            decl@ == struct_text(name@, docs@, fields@),
    {
        let mut body = String::new();
        proof { reveal_strlit(""); }
        let mut i: usize = 0;
        while i < fields.len()
            invariant
                i <= fields@.len(),
                body@ == concat_all(fields@.map_values(|f: Field| field_entry(f)).take(i as int)),
            decreases fields@.len() - i,
        {
            let f = &fields[i];
            body.append(f.name);
            if f.optional {
                body.append("?");
            }
            body.append(": ");
            body.append(type_text(f.ty).as_str());
            body.append(", ");
            assert(fields@.map_values(|f: Field| field_entry(f)).take(i + 1).drop_last()
                =~= fields@.map_values(|f: Field| field_entry(f)).take(i as int));
            i = i + 1;
        }
        assert(fields@.map_values(|f: Field| field_entry(f)).take(fields@.len() as int) =~= fields@.map_values(|f: Field| field_entry(f)));
        let mut decl = concat3(docs, "export type ", name);
        decl.append(" = { ");
        decl.append(body.as_str());
        decl.append("};");
        decl
    }

    fn enum_decl(&self, name: &str, docs: &str, variants: &[&str]) -> (decl: String)
        ensures
            decl@ == enum_text(name@, docs@, strs_view(variants@)),
    {
        let ghost vs = strs_view(variants@);
        let mut quoted: Vec<String> = Vec::new();
        let mut i: usize = 0;
        while i < variants.len()
            invariant
                i <= variants@.len(),
                vs == strs_view(variants@),
                quoted@.map_values(|p: String| p@) == vs.map_values(|v: Seq<char>| "\""@ + v + "\""@).take(i as int),
            decreases variants@.len() - i,
        {
            let q = concat3("\"", variants[i], "\"");
            let ghost qv = q@;
            let ghost before = quoted@;
            quoted.push(q);
            assert(vs[i as int] == variants@[i as int]@);
            assert(quoted@.map_values(|p: String| p@) =~= before.map_values(|p: String| p@).push(qv));
            assert(quoted@.map_values(|p: String| p@) =~= vs.map_values(|v: Seq<char>| "\""@ + v + "\""@).take(i + 1));
            i = i + 1;
        }
        assert(vs.map_values(|v: Seq<char>| "\""@ + v + "\""@).take(variants@.len() as int) =~= vs.map_values(|v: Seq<char>| "\""@ + v + "\""@));
        let union = join_strings(&quoted, " | ");
        let mut decl = concat3(docs, "export type ", name);
        decl.append(" = ");
        decl.append(union.as_str());
        decl.append(";");
        decl
    }

    fn import(&self, module: &str, names: &[&str]) -> (line: String)
        ensures
            line@ == import_text(module@, strs_view(names@)),
    {
        let ghost ns = strs_view(names@);
        let mut owned_names: Vec<String> = Vec::new();
        let mut i: usize = 0;
        while i < names.len()
            invariant
                i <= names@.len(),
                ns == strs_view(names@),
                owned_names@.map_values(|p: String| p@) == ns.take(i as int),
            decreases names@.len() - i,
        {
            let ghost before = owned_names@;
            owned_names.push(owned(names[i]));
            assert(owned_names@.map_values(|p: String| p@) =~= before.map_values(|p: String| p@).push(names@[i as int]@));
            assert(owned_names@.map_values(|p: String| p@) =~= ns.take(i + 1));
            i = i + 1;
        }
        assert(ns.take(names@.len() as int) =~= ns);
        let joined = join_strings(&owned_names, ", ");
        let mut line = concat3("import type { ", joined.as_str(), " } from \"");
        line.append(module);
        line.append("\";");
        line
    }
}

} // verus!
