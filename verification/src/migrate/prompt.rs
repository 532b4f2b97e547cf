//! The rename questions put to the user, and how an answer is read.

use vstd::prelude::*;

use crate::schema::model::{qualify, TableReference};
use crate::text::{concat3, lower_ascii, str_eq, to_ascii_lower, trim, trimmed};

verus! {

/// An answer is a yes when, trimmed and lowercased, it reads `y` or `yes`.
pub open spec fn is_yes_answer(answer: Seq<char>) -> bool {
    let a = lower_ascii(trim(answer));
    a == "y"@ || a == "yes"@
}

pub fn is_yes(answer: &str) -> (yes: bool)
    ensures
        yes == is_yes_answer(answer@),
{
    let t = trimmed(answer);
    let lower = to_ascii_lower(t.as_str());
    str_eq(lower.as_str(), "y") || str_eq(lower.as_str(), "yes")
}

pub open spec fn table_question(schema: Seq<char>, from: Seq<char>, to: Seq<char>) -> Seq<char> {
    "Rename table "@ + schema + "."@ + from + " to "@ + schema + "."@ + to + "?"@
}

pub open spec fn column_question(table: Seq<char>, from: Seq<char>, to: Seq<char>) -> Seq<char> {
    "Rename column "@ + table + "."@ + from + " to "@ + table + "."@ + to + "?"@
}

/// The question asked before renaming a table.
pub fn table_rename_question(schema: &str, from: &str, to: &str) -> (q: String)
    ensures
        q@ == table_question(schema@, from@, to@),
{
    let mut q = concat3("Rename table ", schema, ".");
    q.append(from);
    q.append(" to ");
    q.append(schema);
    q.append(".");
    q.append(to);
    q.append("?");
    q
}

/// The question asked before renaming a column.
pub fn column_rename_question(table: &TableReference, from: &str, to: &str) -> (q: String)
    ensures
        q@ == column_question(qualify(table@.schema, table@.name), from@, to@),
{
    let name = table.qualified_name();
    let mut q = concat3("Rename column ", name.as_str(), ".");
    q.append(from);
    q.append(" to ");
    q.append(name.as_str());
    q.append(".");
    q.append(to);
    q.append("?");
    q
}

} // verus!
