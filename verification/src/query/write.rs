//! Column lists for inserts and updates, checked against the columns a
//! table allows to be written.

use vstd::prelude::*;

use super::builder::{identifier, is_identifier, Float64, SqlValue, SqlValueModel};
use crate::schema::model::strings_view;
use crate::text::{concat2, concat3, decimal, join, join_strings, owned, push_decimal, str_eq};

verus! {

/// A value written to a column.
pub trait IntoSqlValue: Sized {
    spec fn sql_value(self) -> SqlValueModel;

    fn into_sql_value(self) -> (v: SqlValue)
        ensures
            v@ == self.sql_value(),
    ;
}

impl IntoSqlValue for String {
    open spec fn sql_value(self) -> SqlValueModel {
        SqlValueModel::Text(self@)
    }

    fn into_sql_value(self) -> (v: SqlValue) {
        SqlValue::Text(self)
    }
}

impl<'a> IntoSqlValue for &'a str {
    open spec fn sql_value(self) -> SqlValueModel {
        SqlValueModel::Text(self@)
    }

    fn into_sql_value(self) -> (v: SqlValue) {
        SqlValue::Text(owned(self))
    }
}

impl IntoSqlValue for i32 {
    open spec fn sql_value(self) -> SqlValueModel {
        SqlValueModel::Int(self)
    }

    fn into_sql_value(self) -> (v: SqlValue) {
        SqlValue::Int(self)
    }
}

impl IntoSqlValue for i64 {
    open spec fn sql_value(self) -> SqlValueModel {
        SqlValueModel::BigInt(self)
    }

    fn into_sql_value(self) -> (v: SqlValue) {
        SqlValue::BigInt(self)
    }
}

impl IntoSqlValue for bool {
    open spec fn sql_value(self) -> SqlValueModel {
        SqlValueModel::Bool(self)
    }

    fn into_sql_value(self) -> (v: SqlValue) {
        SqlValue::Bool(self)
    }
}

impl IntoSqlValue for Float64 {
    open spec fn sql_value(self) -> SqlValueModel {
        SqlValueModel::Float(self)
    }

    fn into_sql_value(self) -> (v: SqlValue) {
        SqlValue::Float(self)
    }
}

impl IntoSqlValue for uuid::Uuid {
    open spec fn sql_value(self) -> SqlValueModel {
        SqlValueModel::Uuid(self)
    }

    fn into_sql_value(self) -> (v: SqlValue) {
        SqlValue::Uuid(self)
    }
}

impl IntoSqlValue for Vec<String> {
    open spec fn sql_value(self) -> SqlValueModel {
        SqlValueModel::TextList(strings_view(self@))
    }

    fn into_sql_value(self) -> (v: SqlValue) {
        SqlValue::TextList(self)
    }
}

impl<T: IntoSqlValue> IntoSqlValue for Option<T> {
    open spec fn sql_value(self) -> SqlValueModel {
        match self {
            Some(v) => v.sql_value(),
            None => SqlValueModel::Null,
        }
    }

    fn into_sql_value(self) -> (v: SqlValue) {
        match self {
            Some(v) => v.into_sql_value(),
            None => SqlValue::Null,
        }
    }
}

/// Why a write is refused.
#[derive(Debug)]
pub enum WriteError {
    /// A column that is not a plain identifier or not writable.
    UnknownColumn(String),
    /// A column written twice.
    DuplicateColumn(String),
    /// An update with nothing to set.
    NoValues,
}

pub enum WriteErrorModel {
    UnknownColumn(Seq<char>),
    DuplicateColumn(Seq<char>),
    NoValues,
}

impl View for WriteError {
    type V = WriteErrorModel;

    open spec fn view(&self) -> WriteErrorModel {
        match self {
            WriteError::UnknownColumn(f) => WriteErrorModel::UnknownColumn(f@),
            WriteError::DuplicateColumn(f) => WriteErrorModel::DuplicateColumn(f@),
            WriteError::NoValues => WriteErrorModel::NoValues,
        }
    }
}

impl WriteError {
    pub fn message(&self) -> (text: String)
        ensures
            text@ == match self@ {
                WriteErrorModel::UnknownColumn(f) => "unknown write column `"@ + f + "`"@,
                WriteErrorModel::DuplicateColumn(f) => "duplicate write column `"@ + f + "`"@,
                WriteErrorModel::NoValues => "filtered update requires at least one value"@,
            },
    {
        match self {
            WriteError::UnknownColumn(f) => concat3("unknown write column `", f.as_str(), "`"),
            WriteError::DuplicateColumn(f) => concat3("duplicate write column `", f.as_str(), "`"),
            WriteError::NoValues => owned("filtered update requires at least one value"),
        }
    }
}

/// The first problem with a list of written columns: a column that is not
/// an allowed identifier, or one already written.
pub open spec fn column_problem(fields: Seq<Seq<char>>, allowed: Seq<Seq<char>>) -> Option<WriteErrorModel>
    decreases fields.len(),
{
    if fields.len() == 0 {
        None
    } else {
        match column_problem(fields.drop_last(), allowed) {
            Some(e) => Some(e),
            None => {
                let f = fields.last();
                if !identifier(f) || !allowed.contains(f) {
                    Some(WriteErrorModel::UnknownColumn(f))
                } else if fields.drop_last().contains(f) {
                    Some(WriteErrorModel::DuplicateColumn(f))
                } else {
                    None
                }
            },
        }
    }
}

pub open spec fn allowed_view(allowed: Seq<&str>) -> Seq<Seq<char>> {
    allowed.map_values(|a: &str| a@)
}

fn allows(allowed: &[&str], field: &str) -> (found: bool)
    ensures
        found == allowed_view(allowed@).contains(field@),
{
    let mut i: usize = 0;
    while i < allowed.len()
        invariant
            i <= allowed@.len(),
            forall|j: int| 0 <= j < i ==> allowed@[j]@ != field@,
        decreases allowed@.len() - i,
    {
        if str_eq(allowed[i], field) {
            assert(allowed_view(allowed@)[i as int] == field@);
            return true;
        }
        i = i + 1;
    }
    false
}

fn seen_before(fields: &Vec<String>, k: usize) -> (found: bool)
    requires
        k < fields@.len(),
    ensures
        found == strings_view(fields@).take(k as int).contains(fields@[k as int]@),
{
    let mut i: usize = 0;
    while i < k
        invariant
            i <= k < fields@.len(),
            forall|j: int| 0 <= j < i ==> fields@[j]@ != fields@[k as int]@,
        decreases k - i,
    {
        if str_eq(fields[i].as_str(), fields[k].as_str()) {
            assert(strings_view(fields@).take(k as int)[i as int] == fields@[k as int]@);
            return true;
        }
        i = i + 1;
    }
    false
}

/// Checks written columns: each an allowed identifier, none twice.
#[verifier::loop_isolation(false)]
fn validate_fields(fields: &Vec<String>, allowed: &[&str]) -> (r: Result<(), WriteError>)
    ensures
        match r {
            Ok(()) => column_problem(strings_view(fields@), allowed_view(allowed@)) is None,
            Err(e) => column_problem(strings_view(fields@), allowed_view(allowed@)) == Some(e@),
        },
{
    let ghost fs = strings_view(fields@);
    let ghost al = allowed_view(allowed@);
    let mut k: usize = 0;
    while k < fields.len()
        invariant
            k <= fields.len(),
            fs == strings_view(fields@),
            al == allowed_view(allowed@),
            column_problem(fs.take(k as int), al) is None,
        decreases fields.len() - k,
    {
        let f = fields[k].as_str();
        assert(fs.take(k + 1).drop_last() =~= fs.take(k as int));
        assert(fs.take(k + 1).last() == f@);
        if !is_identifier(f) || !allows(allowed, f) {
            proof { lemma_problem_prefix(fs, al, k as int + 1); }
            return Err(WriteError::UnknownColumn(owned(f)));
        }
        if seen_before(fields, k) {
            proof { lemma_problem_prefix(fs, al, k as int + 1); }
            return Err(WriteError::DuplicateColumn(owned(f)));
        }
        k = k + 1;
    }
    assert(fs.take(fields.len() as int) =~= fs);
    Ok(())
}

proof fn lemma_problem_prefix(fields: Seq<Seq<char>>, allowed: Seq<Seq<char>>, k: int)
    requires
        0 <= k <= fields.len(),
        column_problem(fields.take(k), allowed) is Some,
    ensures
        column_problem(fields, allowed) == column_problem(fields.take(k), allowed),
    decreases fields.len() - k,
{
    if k < fields.len() {
        assert(fields.take(k + 1).drop_last() =~= fields.take(k));
        lemma_problem_prefix(fields, allowed, k + 1);
    } else {
        assert(fields.take(k) =~= fields);
    }
}

/// `$start, $start+1, …`: `n` numbered placeholders.
pub open spec fn placeholders(start: nat, n: nat) -> Seq<Seq<char>>
    decreases n,
{
    if n == 0 { seq![] } else { placeholders(start, (n - 1) as nat).push("$"@ + decimal((start + n - 1) as nat)) }
}

/// Values for an INSERT, in column order.
pub struct InsertValues {
    values: Vec<(String, SqlValue)>,
}

impl View for InsertValues {
    type V = Seq<(Seq<char>, SqlValueModel)>;

    closed spec fn view(&self) -> Seq<(Seq<char>, SqlValueModel)> {
        self.values@.map_values(|v: (String, SqlValue)| (v.0@, v.1@))
    }
}

pub open spec fn written_fields<T>(values: Seq<(Seq<char>, T)>) -> Seq<Seq<char>> {
    values.map_values(|v: (Seq<char>, T)| v.0)
}

impl InsertValues {
    pub fn new() -> (v: InsertValues)
        ensures
            v@.len() == 0,
    {
        let v = InsertValues { values: Vec::new() };
        assert(v@ =~= Seq::<(Seq<char>, SqlValueModel)>::empty());
        v
    }

    /// Adds a column and its value.
    pub fn value<T: IntoSqlValue>(self, field: &str, value: T) -> (v: InsertValues)
        ensures
            v@ == self@.push((field@, value.sql_value())),
    {
        let mut v = self;
        let ghost before = v@;
        let entry = (owned(field), value.into_sql_value());
        let ghost ev = (entry.0@, entry.1@);
        v.values.push(entry);
        assert(v@ =~= before.push(ev));
        v
    }

    pub fn is_empty(&self) -> (empty: bool)
        ensures
            empty == (self@.len() == 0),
    {
        self.values.len() == 0
    }

    fn fields(&self) -> (fields: Vec<String>)
        ensures
            strings_view(fields@) == written_fields(self@),
    {
        let mut fields: Vec<String> = Vec::new();
        let mut i: usize = 0;
        while i < self.values.len()
            invariant
                i <= self.values.len(),
                self@.len() == self.values@.len(),
                strings_view(fields@) == written_fields(self@).take(i as int),
            decreases self.values.len() - i,
        {
            let ghost before = fields@;
            fields.push(self.values[i].0.clone());
            assert(strings_view(fields@) =~= strings_view(before).push(self@[i as int].0));
            assert(strings_view(fields@) =~= written_fields(self@).take(i + 1));
            i = i + 1;
        }
        assert(written_fields(self@).take(self.values.len() as int) =~= written_fields(self@));
        fields
    }

    /// The column list and the matching `$1, $2, …` placeholders, once every
    /// column is an allowed identifier written once.
    pub fn build(&self, allowed: &[&str]) -> (r: Result<(String, String), WriteError>)
        requires
            self@.len() < usize::MAX,
        ensures
            match r {
                Ok((columns, marks)) => column_problem(written_fields(self@), allowed_view(allowed@)) is None
                    && columns@ == join(written_fields(self@), ", "@)
                    && marks@ == join(placeholders(1, self@.len()), ", "@),
                Err(e) => column_problem(written_fields(self@), allowed_view(allowed@)) == Some(e@),
            },
    {
        let fields = self.fields();
        match validate_fields(&fields, allowed) {
            Err(e) => return Err(e),
            Ok(()) => {},
        }
        let columns = join_strings(&fields, ", ");
        assert(fields@.map_values(|p: String| p@) =~= strings_view(fields@));
        let mut marks: Vec<String> = Vec::new();
        let mut i: usize = 0;
        while i < self.values.len()
            invariant
                i <= self.values.len(),
                self@.len() == self.values@.len(),
                self@.len() < usize::MAX,
                strings_view(marks@) == placeholders(1, i as nat),
            decreases self.values.len() - i,
        {
            let mut m = owned("$");
            push_decimal(&mut m, (i + 1) as u64);
            let ghost mv = m@;
            let ghost before = marks@;
            marks.push(m);
            assert(strings_view(marks@) =~= strings_view(before).push(mv));
            i = i + 1;
        }
        let joined = join_strings(&marks, ", ");
        assert(marks@.map_values(|p: String| p@) =~= strings_view(marks@));
        Ok((columns, joined))
    }

    /// The values, in column order.
    pub fn params(&self) -> (params: Vec<&SqlValue>)
        ensures
            params@.map_values(|p: &SqlValue| p@) == self@.map_values(|v: (Seq<char>, SqlValueModel)| v.1),
    {
        let mut params: Vec<&SqlValue> = Vec::new();
        let mut i: usize = 0;
        while i < self.values.len()
            invariant
                i <= self.values.len(),
                self@.len() == self.values@.len(),
                params@.map_values(|p: &SqlValue| p@) == self@.map_values(|v: (Seq<char>, SqlValueModel)| v.1).take(i as int),
            decreases self.values.len() - i,
        {
            let ghost before = params@;
            params.push(&self.values[i].1);
            assert(self@[i as int].1 == self.values@[i as int].1@);
            assert(params@.map_values(|p: &SqlValue| p@) =~= before.map_values(|p: &SqlValue| p@).push(self.values@[i as int].1@));
            assert(params@.map_values(|p: &SqlValue| p@) =~= self@.map_values(|v: (Seq<char>, SqlValueModel)| v.1).take(i + 1));
            i = i + 1;
        }
        assert(self@.map_values(|v: (Seq<char>, SqlValueModel)| v.1).take(self.values.len() as int)
            =~= self@.map_values(|v: (Seq<char>, SqlValueModel)| v.1));
        params
    }
}

/// How an UPDATE sets a column.
pub enum UpdateOperation {
    Assign(SqlValue),
    Add(SqlValue),
    Subtract(SqlValue),
    Null,
    DatabaseNow,
}

pub enum UpdateOperationModel {
    Assign(SqlValueModel),
    Add(SqlValueModel),
    Subtract(SqlValueModel),
    Null,
    DatabaseNow,
}

impl View for UpdateOperation {
    type V = UpdateOperationModel;

    open spec fn view(&self) -> UpdateOperationModel {
        match self {
            UpdateOperation::Assign(v) => UpdateOperationModel::Assign(v@),
            UpdateOperation::Add(v) => UpdateOperationModel::Add(v@),
            UpdateOperation::Subtract(v) => UpdateOperationModel::Subtract(v@),
            UpdateOperation::Null => UpdateOperationModel::Null,
            UpdateOperation::DatabaseNow => UpdateOperationModel::DatabaseNow,
        }
    }
}

/// The value an operation binds, if any.
pub open spec fn bound_value(op: UpdateOperationModel) -> Option<SqlValueModel> {
    match op {
        UpdateOperationModel::Assign(v) => Some(v),
        UpdateOperationModel::Add(v) => Some(v),
        UpdateOperationModel::Subtract(v) => Some(v),
        _ => None,
    }
}

/// One assignment, its parameter (if any) numbered `index`.
pub open spec fn assignment(field: Seq<char>, op: UpdateOperationModel, index: nat) -> Seq<char> {
    match op {
        UpdateOperationModel::Assign(_) => field + " = $"@ + decimal(index),
        UpdateOperationModel::Add(_) => field + " = "@ + field + " + $"@ + decimal(index),
        UpdateOperationModel::Subtract(_) => field + " = "@ + field + " - $"@ + decimal(index),
        UpdateOperationModel::Null => field + " = NULL"@,
        UpdateOperationModel::DatabaseNow => field + " = now()"@,
    }
}

pub open spec fn update_bound_count(values: Seq<(Seq<char>, UpdateOperationModel)>) -> nat
    decreases values.len(),
{
    if values.len() == 0 {
        0
    } else {
        update_bound_count(values.drop_last()) + if bound_value(values.last().1) is Some { 1nat } else { 0nat }
    }
}

pub open spec fn assignments(values: Seq<(Seq<char>, UpdateOperationModel)>, start: nat) -> Seq<Seq<char>>
    decreases values.len(),
{
    if values.len() == 0 {
        seq![]
    } else {
        assignments(values.drop_last(), start).push(
            assignment(values.last().0, values.last().1, start + update_bound_count(values.drop_last())),
        )
    }
}

pub open spec fn update_params(values: Seq<(Seq<char>, UpdateOperationModel)>) -> Seq<SqlValueModel>
    decreases values.len(),
{
    if values.len() == 0 {
        seq![]
    } else {
        update_params(values.drop_last()) + match bound_value(values.last().1) {
            Some(v) => seq![v],
            None => seq![],
        }
    }
}

fn assignment_sql(field: &String, op: &UpdateOperation, index: usize) -> (out: (String, bool))
    ensures
        out.0@ == assignment(field@, op@, index as nat),
        out.1 == (bound_value(op@) is Some),
{
    let mut s = field.clone();
    match op {
        UpdateOperation::Assign(_) => {
            s.append(" = $");
            push_decimal(&mut s, index as u64);
            (s, true)
        },
        UpdateOperation::Add(_) => {
            s.append(" = ");
            s.append(field.as_str());
            s.append(" + $");
            push_decimal(&mut s, index as u64);
            (s, true)
        },
        UpdateOperation::Subtract(_) => {
            s.append(" = ");
            s.append(field.as_str());
            s.append(" - $");
            push_decimal(&mut s, index as u64);
            (s, true)
        },
        UpdateOperation::Null => {
            s.append(" = NULL");
            (s, false)
        },
        UpdateOperation::DatabaseNow => {
            s.append(" = now()");
            (s, false)
        },
    }
}

/// Values for an UPDATE, in column order.
pub struct UpdateValues {
    values: Vec<(String, UpdateOperation)>,
}

impl View for UpdateValues {
    type V = Seq<(Seq<char>, UpdateOperationModel)>;

    closed spec fn view(&self) -> Seq<(Seq<char>, UpdateOperationModel)> {
        self.values@.map_values(|v: (String, UpdateOperation)| (v.0@, v.1@))
    }
}

proof fn lemma_update_count_le(values: Seq<(Seq<char>, UpdateOperationModel)>)
    ensures
        update_bound_count(values) <= values.len(),
        update_params(values).len() == update_bound_count(values),
    decreases values.len(),
{
    if values.len() > 0 {
        lemma_update_count_le(values.drop_last());
    }
}

impl UpdateValues {
    pub fn new() -> (v: UpdateValues)
        ensures
            v@.len() == 0,
    {
        let v = UpdateValues { values: Vec::new() };
        assert(v@ =~= Seq::<(Seq<char>, UpdateOperationModel)>::empty());
        v
    }

    fn with(self, field: &str, op: UpdateOperation) -> (v: UpdateValues)
        ensures
            v@ == self@.push((field@, op@)),
    {
        let mut v = self;
        let ghost before = v@;
        let ghost ev = (field@, op@);
        v.values.push((owned(field), op));
        assert(v@ =~= before.push(ev));
        v
    }

    /// Sets `field` to a bound value.
    pub fn assign<T: IntoSqlValue>(self, field: &str, value: T) -> (v: UpdateValues)
        ensures
            v@ == self@.push((field@, UpdateOperationModel::Assign(value.sql_value()))),
    {
        let value = value.into_sql_value();
        self.with(field, UpdateOperation::Assign(value))
    }

    /// Adds a bound value to `field`.
    pub fn add<T: IntoSqlValue>(self, field: &str, value: T) -> (v: UpdateValues)
        ensures
            v@ == self@.push((field@, UpdateOperationModel::Add(value.sql_value()))),
    {
        let value = value.into_sql_value();
        self.with(field, UpdateOperation::Add(value))
    }

    /// Subtracts a bound value from `field`.
    pub fn subtract<T: IntoSqlValue>(self, field: &str, value: T) -> (v: UpdateValues)
        ensures
            v@ == self@.push((field@, UpdateOperationModel::Subtract(value.sql_value()))),
    {
        let value = value.into_sql_value();
        self.with(field, UpdateOperation::Subtract(value))
    }

    /// Sets `field` to NULL.
    pub fn null(self, field: &str) -> (v: UpdateValues)
        ensures
            v@ == self@.push((field@, UpdateOperationModel::Null)),
    {
        self.with(field, UpdateOperation::Null)
    }

    /// Sets `field` to the database's `now()`.
    pub fn database_now(self, field: &str) -> (v: UpdateValues)
        ensures
            v@ == self@.push((field@, UpdateOperationModel::DatabaseNow)),
    {
        self.with(field, UpdateOperation::DatabaseNow)
    }

    /// The `SET` list, parameters numbered from `param_offset`, and the next
    /// free parameter number; refused when empty or when a column is not an
    /// allowed identifier written once.
    #[verifier::loop_isolation(false)]
    pub fn build(&self, param_offset: usize, allowed: &[&str]) -> (r: Result<(String, usize), WriteError>)
        requires
            param_offset + self@.len() <= usize::MAX,
        ensures
            match r {
                Ok((sql, next)) => self@.len() > 0
                    && column_problem(written_fields(self@), allowed_view(allowed@)) is None
                    && sql@ == join(assignments(self@, param_offset as nat), ", "@)
                    && next == param_offset + update_bound_count(self@),
                Err(e) => if self@.len() == 0 {
                    e@ == WriteErrorModel::NoValues
                } else {
                    column_problem(written_fields(self@), allowed_view(allowed@)) == Some(e@)
                },
            },
    {
        if self.values.len() == 0 {
            return Err(WriteError::NoValues);
        }
        let mut fields: Vec<String> = Vec::new();
        let mut i: usize = 0;
        while i < self.values.len()
            invariant
                i <= self.values.len(),
                self@.len() == self.values@.len(),
                strings_view(fields@) == written_fields(self@).take(i as int),
            decreases self.values.len() - i,
        {
            let ghost before = fields@;
            fields.push(self.values[i].0.clone());
            assert(strings_view(fields@) =~= strings_view(before).push(self@[i as int].0));
            assert(strings_view(fields@) =~= written_fields(self@).take(i + 1));
            i = i + 1;
        }
        assert(written_fields(self@).take(self.values.len() as int) =~= written_fields(self@));
        match validate_fields(&fields, allowed) {
            Err(e) => return Err(e),
            Ok(()) => {},
        }
        let ghost vs = self@;
        let mut parts: Vec<String> = Vec::new();
        let mut index = param_offset;
        let mut k: usize = 0;
        while k < self.values.len()
            invariant
                k <= self.values.len(),
                vs == self@,
                vs.len() == self.values@.len(),
                param_offset + vs.len() <= usize::MAX,
                index == param_offset + update_bound_count(vs.take(k as int)),
                strings_view(parts@) == assignments(vs.take(k as int), param_offset as nat),
            decreases self.values.len() - k,
        {
            let (field, op) = &self.values[k];
            assert(vs.take(k + 1).drop_last() =~= vs.take(k as int));
            assert(vs.take(k + 1).last() == (field@, op@));
            proof { lemma_update_count_le(vs.take(k as int)); }
            let (s, binds) = assignment_sql(field, op, index);
            let ghost sv = s@;
            let ghost before = parts@;
            parts.push(s);
            assert(strings_view(parts@) =~= strings_view(before).push(sv));
            if binds {
                index = index + 1;
            }
            k = k + 1;
        }
        assert(vs.take(self.values.len() as int) =~= vs);
        let sql = join_strings(&parts, ", ");
        assert(parts@.map_values(|p: String| p@) =~= strings_view(parts@));
        Ok((sql, index))
    }

    /// The bound values, in placeholder order.
    #[verifier::loop_isolation(false)]
    pub fn params(&self) -> (params: Vec<&SqlValue>)
        ensures
            params@.map_values(|p: &SqlValue| p@) == update_params(self@),
    {
        let ghost vs = self@;
        let mut params: Vec<&SqlValue> = Vec::new();
        let mut k: usize = 0;
        while k < self.values.len()
            invariant
                k <= self.values.len(),
                vs == self@,
                vs.len() == self.values@.len(),
                params@.map_values(|p: &SqlValue| p@) == update_params(vs.take(k as int)),
            decreases self.values.len() - k,
        {
            assert(vs.take(k + 1).drop_last() =~= vs.take(k as int));
            assert(vs.take(k + 1).last() == (self.values@[k as int].0@, self.values@[k as int].1@));
            let ghost before = params@.map_values(|p: &SqlValue| p@);
            match &self.values[k].1 {
                UpdateOperation::Assign(v) | UpdateOperation::Add(v) | UpdateOperation::Subtract(v) => {
                    params.push(v);
                    assert(params@.map_values(|p: &SqlValue| p@) =~= before.push(v@));
                },
                _ => {},
            }
            assert(params@.map_values(|p: &SqlValue| p@) =~= update_params(vs.take(k + 1)));
            k = k + 1;
        }
        assert(vs.take(self.values.len() as int) =~= vs);
        params
    }
}

/// An update binds exactly the parameters its SET list numbers.
pub proof fn law_update_placeholders_match_params(values: Seq<(Seq<char>, UpdateOperationModel)>)
    ensures
        update_params(values).len() == update_bound_count(values),
{
    lemma_update_count_le(values);
}

/// An insert numbers one placeholder per value it binds.
pub proof fn law_insert_placeholders_match_params(values: Seq<(Seq<char>, SqlValueModel)>, start: nat)
    ensures
        placeholders(start, values.len()).len() == values.map_values(|v: (Seq<char>, SqlValueModel)| v.1).len(),
    decreases values.len(),
{
    if values.len() > 0 {
        law_insert_placeholders_match_params(values.drop_last(), start);
    }
}

} // verus!
