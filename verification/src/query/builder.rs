//! Filters, sorting, paging and row locks for list queries. Values are
//! bound as parameters; field names are interpolated, so names that come
//! from request parameters must be plain identifiers.

use vstd::prelude::*;

use super::params::{field_names, order_sql, Pagination, Search, Sort, SortOrder};
use crate::schema::model::strings_view;
use crate::text::{
    concat2, concat3, is_ascii_alnum, is_ascii_alpha, join, join_strings, owned, push_decimal, decimal,
};

verus! {

/// The largest page a caller can request through [`QueryOptions::from_params`].
pub const MAX_LIMIT: u32 = 100;

/// The page size used when the caller doesn't ask for one.
pub const DEFAULT_LIMIT: u32 = 50;

/// A plain column identifier: a letter or underscore, then letters, digits
/// or underscores.
pub open spec fn identifier(s: Seq<char>) -> bool {
    &&& s.len() > 0
    &&& (is_ascii_alpha(s[0]) || s[0] == '_')
    &&& forall|i: int| 1 <= i < s.len() ==> is_ascii_alnum(#[trigger] s[i]) || s[i] == '_'
}

/// True when `field` is a plain column identifier, safe to interpolate into
/// SQL.
pub fn is_identifier(field: &str) -> (ok: bool)
    ensures
        ok == identifier(field@),
{
    let n = field.unicode_len();
    if n == 0 {
        return false;
    }
    let first = field.get_char(0);
    if !(('a' <= first && first <= 'z') || ('A' <= first && first <= 'Z') || first == '_') {
        return false;
    }
    let mut i: usize = 1;
    while i < n
        invariant
            1 <= i <= n,
            n == field@.len(),
            forall|k: int| 1 <= k < i ==> is_ascii_alnum(#[trigger] field@[k]) || field@[k] == '_',
        decreases n - i,
    {
        let c = field.get_char(i);
        if !(crate::text::char_is_ascii_alnum(c) || c == '_') {
            assert(!(is_ascii_alnum(field@[i as int]) || field@[i as int] == '_'));
            return false;
        }
        i = i + 1;
    }
    true
}

/// A 64-bit float, carried as its IEEE 754 bits.
#[derive(Clone, Copy, PartialEq, Eq, Structural, Debug)]
pub struct Float64 {
    pub bits: u64,
}

impl Float64 {
    pub fn from_bits(bits: u64) -> (f: Float64)
        ensures
            f.bits == bits,
    {
        Float64 { bits }
    }
}

/// A value bound as a query parameter.
pub enum SqlValue {
    Text(String),
    Int(i32),
    BigInt(i64),
    Float(Float64),
    Bool(bool),
    Uuid(uuid::Uuid),
    TextList(Vec<String>),
    Null,
}

pub enum SqlValueModel {
    Text(Seq<char>),
    Int(i32),
    BigInt(i64),
    Float(Float64),
    Bool(bool),
    Uuid(uuid::Uuid),
    TextList(Seq<Seq<char>>),
    Null,
}

impl View for SqlValue {
    type V = SqlValueModel;

    open spec fn view(&self) -> SqlValueModel {
        match self {
            SqlValue::Text(s) => SqlValueModel::Text(s@),
            SqlValue::Int(v) => SqlValueModel::Int(*v),
            SqlValue::BigInt(v) => SqlValueModel::BigInt(*v),
            SqlValue::Float(v) => SqlValueModel::Float(*v),
            SqlValue::Bool(v) => SqlValueModel::Bool(*v),
            SqlValue::Uuid(v) => SqlValueModel::Uuid(*v),
            SqlValue::TextList(v) => SqlValueModel::TextList(strings_view(v@)),
            SqlValue::Null => SqlValueModel::Null,
        }
    }
}

#[verifier::external_type_specification]
#[verifier::external_body]
pub struct ExUuid(uuid::Uuid);

#[derive(Clone, Copy, PartialEq, Eq, Structural, Debug)]
pub enum LogicalOp {
    And,
    Or,
}

impl Default for LogicalOp {
    fn default() -> (op: LogicalOp)
        ensures
            op == LogicalOp::And,
    {
        LogicalOp::And
    }
}

pub open spec fn logical_sql(op: LogicalOp) -> Seq<char> {
    match op {
        LogicalOp::And => " AND "@,
        LogicalOp::Or => " OR "@,
    }
}

impl LogicalOp {
    pub fn as_str(&self) -> (sql: &'static str)
        ensures
            sql@ == logical_sql(*self),
    {
        match self {
            LogicalOp::And => " AND ",
            LogicalOp::Or => " OR ",
        }
    }
}

#[derive(Clone, Copy, PartialEq, Eq, Structural, Debug)]
pub enum FilterOp {
    Eq,
    Ne,
    Gt,
    Gte,
    Lt,
    Lte,
    Like,
    ILike,
    IsNull,
    IsNotNull,
    /// Membership in a list, bound as one array parameter.
    In,
}

pub open spec fn op_sql(op: FilterOp) -> Seq<char> {
    match op {
        FilterOp::Eq => "="@,
        FilterOp::Ne => "!="@,
        FilterOp::Gt => ">"@,
        FilterOp::Gte => ">="@,
        FilterOp::Lt => "<"@,
        FilterOp::Lte => "<="@,
        FilterOp::Like => "LIKE"@,
        FilterOp::ILike => "ILIKE"@,
        FilterOp::IsNull => "IS NULL"@,
        FilterOp::IsNotNull => "IS NOT NULL"@,
        FilterOp::In => "= ANY"@,
    }
}

/// What PostgreSQL's comparison operator `text` says of a left value `a`
/// and a right value `b`; nothing for text that is no such operator.
pub open spec fn sql_comparison(text: Seq<char>, a: int, b: int) -> Option<bool> {
    if text == "="@ {
        Some(a == b)
    } else if text == "!="@ || text == "<>"@ {
        Some(a != b)
    } else if text == "<"@ {
        Some(a < b)
    } else if text == "<="@ {
        Some(a <= b)
    } else if text == ">"@ {
        Some(a > b)
    } else if text == ">="@ {
        Some(a >= b)
    } else {
        None
    }
}

/// What a comparing filter asks of a field's value `a` against the bound
/// value `b`: equal, not equal, greater, at least, less, at most; nothing
/// for the other filters.
pub open spec fn filter_compares(op: FilterOp, a: int, b: int) -> Option<bool> {
    match op {
        FilterOp::Eq => Some(a == b),
        FilterOp::Ne => Some(a != b),
        FilterOp::Gt => Some(a > b),
        FilterOp::Gte => Some(a >= b),
        FilterOp::Lt => Some(a < b),
        FilterOp::Lte => Some(a <= b),
        _ => None,
    }
}

/// The filter a PostgreSQL keyword predicate stands for: pattern matches,
/// null tests and array membership.
pub open spec fn sql_keyword(text: Seq<char>) -> Option<FilterOp> {
    if text == "LIKE"@ {
        Some(FilterOp::Like)
    } else if text == "ILIKE"@ {
        Some(FilterOp::ILike)
    } else if text == "IS NULL"@ {
        Some(FilterOp::IsNull)
    } else if text == "IS NOT NULL"@ {
        Some(FilterOp::IsNotNull)
    } else if text == "= ANY"@ {
        Some(FilterOp::In)
    } else {
        None
    }
}

/// Each filter renders to the SQL operator that means what the filter asks:
/// a comparing filter to the comparison that holds of the same values, any
/// other filter to the keyword predicate that stands for it; and no two
/// filters render alike.
pub proof fn law_filter_operators(op: FilterOp, other: FilterOp, a: int, b: int)
    ensures
        sql_comparison(op_sql(op), a, b) == filter_compares(op, a, b),
        filter_compares(op, a, b) is None ==> sql_keyword(op_sql(op)) == Some(op),
        op_sql(op) == op_sql(other) ==> op == other,
{
    reveal_strlit("=");
    reveal_strlit("!=");
    reveal_strlit("<>");
    reveal_strlit("<");
    reveal_strlit("<=");
    reveal_strlit(">");
    reveal_strlit(">=");
    reveal_strlit("LIKE");
    reveal_strlit("ILIKE");
    reveal_strlit("IS NULL");
    reveal_strlit("IS NOT NULL");
    reveal_strlit("= ANY");
    assert("="@.len() == 1 && "="@[0] == '=');
    assert("!="@.len() == 2 && "!="@[0] == '!' && "!="@[1] == '=');
    assert("<>"@.len() == 2 && "<>"@[0] == '<' && "<>"@[1] == '>');
    assert("<"@.len() == 1 && "<"@[0] == '<');
    assert("<="@.len() == 2 && "<="@[0] == '<' && "<="@[1] == '=');
    assert(">"@.len() == 1 && ">"@[0] == '>');
    assert(">="@.len() == 2 && ">="@[0] == '>' && ">="@[1] == '=');
    assert("LIKE"@.len() == 4 && "LIKE"@[0] == 'L' && "LIKE"@[1] == 'I' && "LIKE"@[2] == 'K' && "LIKE"@[3] == 'E');
    assert("ILIKE"@.len() == 5 && "ILIKE"@[0] == 'I' && "ILIKE"@[1] == 'L' && "ILIKE"@[2] == 'I' && "ILIKE"@[3] == 'K');
    assert("IS NULL"@.len() == 7 && "IS NULL"@[0] == 'I' && "IS NULL"@[1] == 'S' && "IS NULL"@[2] == ' ' && "IS NULL"@[3] == 'N');
    assert("IS NOT NULL"@.len() == 11 && "IS NOT NULL"@[0] == 'I' && "IS NOT NULL"@[1] == 'S' && "IS NOT NULL"@[2] == ' ' && "IS NOT NULL"@[3] == 'N');
    assert("= ANY"@.len() == 5 && "= ANY"@[0] == '=' && "= ANY"@[1] == ' ' && "= ANY"@[2] == 'A' && "= ANY"@[3] == 'N');
}

pub open spec fn op_needs_value(op: FilterOp) -> bool {
    !(op == FilterOp::IsNull || op == FilterOp::IsNotNull)
}

/// A text value as it is bound: wrapped in `%` wildcards for pattern
/// matches, as given otherwise.
pub open spec fn wrapped_text(op: FilterOp, value: Seq<char>) -> Seq<char> {
    if op == FilterOp::Like || op == FilterOp::ILike { "%"@ + value + "%"@ } else { value }
}

impl FilterOp {
    pub fn as_sql(&self) -> (sql: &'static str)
        ensures
            sql@ == op_sql(*self),
    {
        match self {
            FilterOp::Eq => "=",
            FilterOp::Ne => "!=",
            FilterOp::Gt => ">",
            FilterOp::Gte => ">=",
            FilterOp::Lt => "<",
            FilterOp::Lte => "<=",
            FilterOp::Like => "LIKE",
            FilterOp::ILike => "ILIKE",
            FilterOp::IsNull => "IS NULL",
            FilterOp::IsNotNull => "IS NOT NULL",
            FilterOp::In => "= ANY",
        }
    }

    pub fn wrap_value(&self, value: &str) -> (wrapped: String)
        ensures
            wrapped@ == wrapped_text(*self, value@),
    {
        match self {
            FilterOp::Like | FilterOp::ILike => concat3("%", value, "%"),
            _ => owned(value),
        }
    }

    pub fn needs_value(&self) -> (needs: bool)
        ensures
            needs == op_needs_value(*self),
    {
        match self {
            FilterOp::IsNull | FilterOp::IsNotNull => false,
            _ => true,
        }
    }
}

/// A value that can be bound to a filter.
pub trait FilterValue: Sized {
    /// The parameter this value binds for `op`, if any.
    spec fn filter_param(self, op: FilterOp) -> Option<SqlValueModel>;

    fn into_filter_value(self, op: FilterOp) -> (param: Option<SqlValue>)
        ensures
            match param {
                Some(p) => self.filter_param(op) == Some(p@),
                None => self.filter_param(op) is None,
            },
    ;
}

impl FilterValue for String {
    open spec fn filter_param(self, op: FilterOp) -> Option<SqlValueModel> {
        Some(SqlValueModel::Text(wrapped_text(op, self@)))
    }

    fn into_filter_value(self, op: FilterOp) -> (param: Option<SqlValue>) {
        Some(SqlValue::Text(op.wrap_value(self.as_str())))
    }
}

impl<'a> FilterValue for &'a str {
    open spec fn filter_param(self, op: FilterOp) -> Option<SqlValueModel> {
        Some(SqlValueModel::Text(wrapped_text(op, self@)))
    }

    fn into_filter_value(self, op: FilterOp) -> (param: Option<SqlValue>) {
        Some(SqlValue::Text(op.wrap_value(self)))
    }
}

impl<T: FilterValue> FilterValue for Option<T> {
    open spec fn filter_param(self, op: FilterOp) -> Option<SqlValueModel> {
        match self {
            Some(v) => v.filter_param(op),
            None => None,
        }
    }

    fn into_filter_value(self, op: FilterOp) -> (param: Option<SqlValue>) {
        match self {
            Some(v) => v.into_filter_value(op),
            None => None,
        }
    }
}

impl FilterValue for i32 {
    open spec fn filter_param(self, op: FilterOp) -> Option<SqlValueModel> {
        Some(SqlValueModel::Int(self))
    }

    fn into_filter_value(self, op: FilterOp) -> (param: Option<SqlValue>) {
        Some(SqlValue::Int(self))
    }
}

impl FilterValue for i64 {
    open spec fn filter_param(self, op: FilterOp) -> Option<SqlValueModel> {
        Some(SqlValueModel::BigInt(self))
    }

    fn into_filter_value(self, op: FilterOp) -> (param: Option<SqlValue>) {
        Some(SqlValue::BigInt(self))
    }
}

impl FilterValue for bool {
    open spec fn filter_param(self, op: FilterOp) -> Option<SqlValueModel> {
        Some(SqlValueModel::Bool(self))
    }

    fn into_filter_value(self, op: FilterOp) -> (param: Option<SqlValue>) {
        Some(SqlValue::Bool(self))
    }
}

impl FilterValue for Float64 {
    open spec fn filter_param(self, op: FilterOp) -> Option<SqlValueModel> {
        Some(SqlValueModel::Float(self))
    }

    fn into_filter_value(self, op: FilterOp) -> (param: Option<SqlValue>) {
        Some(SqlValue::Float(self))
    }
}

impl FilterValue for uuid::Uuid {
    open spec fn filter_param(self, op: FilterOp) -> Option<SqlValueModel> {
        Some(SqlValueModel::Uuid(self))
    }

    fn into_filter_value(self, op: FilterOp) -> (param: Option<SqlValue>) {
        Some(SqlValue::Uuid(self))
    }
}

impl FilterValue for Vec<String> {
    open spec fn filter_param(self, op: FilterOp) -> Option<SqlValueModel> {
        Some(SqlValueModel::TextList(strings_view(self@)))
    }

    fn into_filter_value(self, op: FilterOp) -> (param: Option<SqlValue>) {
        Some(SqlValue::TextList(self))
    }
}

/// One condition on a field.
pub struct Filter {
    pub field: String,
    pub op: FilterOp,
    pub value: SqlValue,
}

pub struct FilterModel {
    pub field: Seq<char>,
    pub op: FilterOp,
    pub value: SqlValueModel,
}

impl View for Filter {
    type V = FilterModel;

    open spec fn view(&self) -> FilterModel {
        FilterModel { field: self.field@, op: self.op, value: self.value@ }
    }
}

/// Conditions joined by one logical operator.
pub struct FilterGroup {
    pub filters: Vec<Filter>,
    pub op: LogicalOp,
}

pub struct FilterGroupModel {
    pub filters: Seq<FilterModel>,
    pub op: LogicalOp,
}

impl View for FilterGroup {
    type V = FilterGroupModel;

    open spec fn view(&self) -> FilterGroupModel {
        FilterGroupModel { filters: self.filters@.map_values(|f: Filter| f@), op: self.op }
    }
}

impl FilterGroup {
    pub fn and() -> (g: FilterGroup)
        ensures
            g@.filters.len() == 0,
            g@.op == LogicalOp::And,
    {
        FilterGroup { filters: Vec::new(), op: LogicalOp::And }
    }

    pub fn or() -> (g: FilterGroup)
        ensures
            g@.filters.len() == 0,
            g@.op == LogicalOp::Or,
    {
        FilterGroup { filters: Vec::new(), op: LogicalOp::Or }
    }

    /// Adds a condition; a value that binds nothing (such as `None`) adds none.
    pub fn filter<T: FilterValue>(self, field: &str, op: FilterOp, value: T) -> (g: FilterGroup)
        ensures
            g@ == match value.filter_param(op) {
                Some(p) => FilterGroupModel { filters: self@.filters.push(FilterModel { field: field@, op, value: p }), ..self@ },
                None => self@,
            },
    {
        let mut g = self;
        let ghost before = g@;
        match value.into_filter_value(op) {
            Some(converted) => {
                let f = Filter { field: owned(field), op, value: converted };
                let ghost fv = f@;
                g.filters.push(f);
                assert(g@.filters =~= before.filters.push(fv));
            },
            None => {},
        }
        g
    }

    /// An OR group matching the search text against each identifier field.
    #[verifier::loop_isolation(false)]
    pub fn from_search(search: Search) -> (g: FilterGroup)
        ensures
            g@ == search_group(search.query, search.fields),
    {
        let mut group = FilterGroup::or();
        let fields = search.field_list();
        match &search.query {
            None => {
                assert(group@.filters =~= Seq::<FilterModel>::empty());
                group
            },
            Some(query) => {
                let ghost names = match search.fields {
                    Some(f) => field_names(f@),
                    None => Seq::empty(),
                };
                let ghost f = |n: Seq<char>| if identifier(n) {
                    seq![FilterModel { field: n, op: FilterOp::ILike, value: SqlValueModel::Text(wrapped_text(FilterOp::ILike, query@)) }]
                } else {
                    seq![]
                };
                let mut k: usize = 0;
                while k < fields.len()
                    invariant
                        k <= fields.len(),
                        strings_view(fields@) == names,
                        group@.op == LogicalOp::Or,
                        group@.filters == crate::text::concat_map(names.take(k as int), f),
                    decreases fields.len() - k,
                {
                    let ghost before = group@.filters;
                    assert(names[k as int] == fields@[k as int]@);
                    if is_identifier(fields[k].as_str()) {
                        let value = SqlValue::Text(FilterOp::ILike.wrap_value(query.as_str()));
                        let filter = Filter { field: fields[k].clone(), op: FilterOp::ILike, value };
                        let ghost fv = filter@;
                        group.filters.push(filter);
                        assert(group@.filters =~= before.push(fv));
                    }
                    proof { crate::text::lemma_concat_map_step(names, f, k as int); }
                    assert(group@.filters =~= crate::text::concat_map(names.take(k + 1), f));
                    k = k + 1;
                }
                assert(names.take(fields.len() as int) =~= names);
                group
            },
        }
    }
}

/// The search group: for a query, one ILIKE condition per identifier field.
pub open spec fn search_group(query: Option<String>, fields: Option<String>) -> FilterGroupModel {
    FilterGroupModel {
        filters: match query {
            Some(q) => crate::text::concat_map(
                match fields {
                    Some(f) => field_names(f@),
                    None => Seq::empty(),
                },
                |n: Seq<char>| if identifier(n) {
                    seq![FilterModel { field: n, op: FilterOp::ILike, value: SqlValueModel::Text(wrapped_text(FilterOp::ILike, q@)) }]
                } else {
                    seq![]
                },
            ),
            None => seq![],
        },
        op: LogicalOp::Or,
    }
}

/// A sort column and direction.
pub struct QuerySort {
    pub field: String,
    pub order: SortOrder,
}

impl QuerySort {
    pub fn new(field: &str, order: SortOrder) -> (s: QuerySort)
        ensures
            s.field@ == field@,
            s.order == order,
    {
        QuerySort { field: owned(field), order }
    }
}

/// Filters, sort, paging and locking for one list query.
pub struct QueryOptions {
    pub groups: Vec<FilterGroup>,
    pub limit: Option<u32>,
    pub offset: Option<u32>,
    pub sort_by: Option<String>,
    pub sort_order: Option<SortOrder>,
    /// Further sort keys, after the primary one.
    pub then_by: Vec<QuerySort>,
    /// Lock the selected rows `FOR SHARE`.
    pub for_share: bool,
}

pub struct QueryOptionsModel {
    pub groups: Seq<FilterGroupModel>,
    pub limit: Option<u32>,
    pub offset: Option<u32>,
    pub sort_by: Option<Seq<char>>,
    pub sort_order: Option<SortOrder>,
    pub then_by: Seq<(Seq<char>, SortOrder)>,
    pub for_share: bool,
}

impl View for QueryOptions {
    type V = QueryOptionsModel;

    open spec fn view(&self) -> QueryOptionsModel {
        QueryOptionsModel {
            groups: self.groups@.map_values(|g: FilterGroup| g@),
            limit: self.limit,
            offset: self.offset,
            sort_by: match self.sort_by {
                Some(s) => Some(s@),
                None => None,
            },
            sort_order: self.sort_order,
            then_by: self.then_by@.map_values(|s: QuerySort| (s.field@, s.order)),
            for_share: self.for_share,
        }
    }
}

// ---------------------------------------------------------------------------
// WHERE

/// How many parameters `filters` bind.
pub open spec fn bound_count(filters: Seq<FilterModel>) -> nat
    decreases filters.len(),
{
    if filters.len() == 0 {
        0
    } else {
        bound_count(filters.drop_last()) + if op_needs_value(filters.last().op) { 1nat } else { 0nat }
    }
}

pub open spec fn groups_bound_count(groups: Seq<FilterGroupModel>) -> nat
    decreases groups.len(),
{
    if groups.len() == 0 {
        0
    } else {
        groups_bound_count(groups.drop_last()) + bound_count(groups.last().filters)
    }
}

/// One condition, its parameter (if any) numbered `index`.
pub open spec fn condition(f: FilterModel, index: nat) -> Seq<char> {
    if !op_needs_value(f.op) {
        f.field + " "@ + op_sql(f.op)
    } else if f.op == FilterOp::In {
        f.field + " = ANY($"@ + decimal(index) + ")"@
    } else {
        f.field + " "@ + op_sql(f.op) + " $"@ + decimal(index)
    }
}

/// The conditions of `filters`, parameters numbered from `start`.
pub open spec fn conditions(filters: Seq<FilterModel>, start: nat) -> Seq<Seq<char>>
    decreases filters.len(),
{
    if filters.len() == 0 {
        seq![]
    } else {
        conditions(filters.drop_last(), start).push(condition(filters.last(), start + bound_count(filters.drop_last())))
    }
}

/// A group's conditions: alone, or joined by its operator in parentheses.
pub open spec fn group_condition(g: FilterGroupModel, start: nat) -> Seq<char> {
    let cs = conditions(g.filters, start);
    if cs.len() == 1 { cs[0] } else { "("@ + join(cs, logical_sql(g.op)) + ")"@ }
}

/// The conditions of the non-empty groups, parameters numbered from `start`.
pub open spec fn group_conditions(groups: Seq<FilterGroupModel>, start: nat) -> Seq<Seq<char>>
    decreases groups.len(),
{
    if groups.len() == 0 {
        seq![]
    } else {
        let before = group_conditions(groups.drop_last(), start);
        let g = groups.last();
        if g.filters.len() == 0 {
            before
        } else {
            before.push(group_condition(g, start + groups_bound_count(groups.drop_last())))
        }
    }
}

/// ` WHERE` and the groups' conditions joined by AND; nothing when no group
/// has a condition.
pub open spec fn where_clause(groups: Seq<FilterGroupModel>, start: nat) -> Seq<char> {
    let cs = group_conditions(groups, start);
    if cs.len() == 0 { seq![] } else { " WHERE "@ + join(cs, " AND "@) }
}

/// The parameters the filters bind, in placeholder order.
pub open spec fn bound_values(filters: Seq<FilterModel>) -> Seq<SqlValueModel>
    decreases filters.len(),
{
    if filters.len() == 0 {
        seq![]
    } else {
        bound_values(filters.drop_last()) + if op_needs_value(filters.last().op) { seq![filters.last().value] } else { seq![] }
    }
}

pub open spec fn groups_bound_values(groups: Seq<FilterGroupModel>) -> Seq<SqlValueModel>
    decreases groups.len(),
{
    if groups.len() == 0 {
        seq![]
    } else {
        groups_bound_values(groups.drop_last()) + bound_values(groups.last().filters)
    }
}

proof fn lemma_bound_values_len(filters: Seq<FilterModel>)
    ensures
        bound_values(filters).len() == bound_count(filters),
    decreases filters.len(),
{
    if filters.len() > 0 {
        lemma_bound_values_len(filters.drop_last());
    }
}

/// The parameters a WHERE clause numbers are exactly those the options
/// bind: the clause's next free number is the offset plus their count.
pub proof fn law_placeholders_match_params(groups: Seq<FilterGroupModel>)
    ensures
        groups_bound_values(groups).len() == groups_bound_count(groups),
    decreases groups.len(),
{
    if groups.len() > 0 {
        law_placeholders_match_params(groups.drop_last());
        lemma_bound_values_len(groups.last().filters);
    }
}

/// The filters of all groups, in order.
pub open spec fn all_filters(groups: Seq<FilterGroupModel>) -> Seq<FilterModel>
    decreases groups.len(),
{
    if groups.len() == 0 {
        seq![]
    } else {
        all_filters(groups.drop_last()) + groups.last().filters
    }
}

/// The conditions of each group's filters, group after group, numbered as
/// the WHERE clause numbers them.
pub open spec fn filter_conditions(groups: Seq<FilterGroupModel>, start: nat) -> Seq<Seq<char>>
    decreases groups.len(),
{
    if groups.len() == 0 {
        seq![]
    } else {
        filter_conditions(groups.drop_last(), start)
            + conditions(groups.last().filters, start + groups_bound_count(groups.drop_last()))
    }
}

proof fn lemma_filters_append(a: Seq<FilterModel>, c: Seq<FilterModel>, start: nat)
    ensures
        bound_count(a + c) == bound_count(a) + bound_count(c),
        bound_values(a + c) == bound_values(a) + bound_values(c),
        conditions(a + c, start) == conditions(a, start) + conditions(c, start + bound_count(a)),
    decreases c.len(),
{
    if c.len() == 0 {
        assert(a + c =~= a);
        assert(bound_values(a) + bound_values(c) =~= bound_values(a));
        assert(conditions(a, start) + conditions(c, start + bound_count(a)) =~= conditions(a, start));
    } else {
        lemma_filters_append(a, c.drop_last(), start);
        assert((a + c).drop_last() =~= a + c.drop_last());
        assert((a + c).last() == c.last());
        let last = c.last();
        let vs: Seq<SqlValueModel> = if op_needs_value(last.op) { seq![last.value] } else { seq![] };
        assert(bound_values(a + c) =~= bound_values(a) + bound_values(c.drop_last()) + vs);
        assert(conditions(a + c, start) =~= conditions(a, start) + conditions(c, start + bound_count(a)));
    }
}

proof fn lemma_group_conditions_len(groups: Seq<FilterGroupModel>, start: nat)
    ensures
        group_conditions(groups, start).len() == 0 <==> filter_count(groups) == 0,
    decreases groups.len(),
{
    if groups.len() > 0 {
        lemma_group_conditions_len(groups.drop_last(), start);
    }
}

proof fn lemma_flat_groups(groups: Seq<FilterGroupModel>, start: nat)
    ensures
        filter_count(groups) == all_filters(groups).len(),
        groups_bound_count(groups) == bound_count(all_filters(groups)),
        groups_bound_values(groups) == bound_values(all_filters(groups)),
        filter_conditions(groups, start) == conditions(all_filters(groups), start),
    decreases groups.len(),
{
    if groups.len() > 0 {
        lemma_flat_groups(groups.drop_last(), start);
        lemma_filters_append(all_filters(groups.drop_last()), groups.last().filters, start);
    }
}

proof fn lemma_conditions_at(fs: Seq<FilterModel>, start: nat, p: int)
    requires
        0 <= p < fs.len(),
    ensures
        conditions(fs, start).len() == fs.len(),
        conditions(fs, start)[p] == condition(fs[p], start + bound_count(fs.take(p))),
    decreases fs.len(),
{
    if p == fs.len() - 1 {
        assert(fs.take(p) =~= fs.drop_last());
        if p > 0 {
            lemma_conditions_at(fs.drop_last(), start, p - 1);
        }
    } else {
        lemma_conditions_at(fs.drop_last(), start, p);
        assert(fs.drop_last().take(p) =~= fs.take(p));
    }
}

proof fn lemma_bound_count_step(fs: Seq<FilterModel>, p: int)
    requires
        0 <= p < fs.len(),
    ensures
        bound_count(fs.take(p + 1)) == bound_count(fs.take(p)) + if op_needs_value(fs[p].op) { 1nat } else { 0nat },
{
    assert(fs.take(p + 1).drop_last() =~= fs.take(p));
}

proof fn lemma_bound_count_monotone(fs: Seq<FilterModel>, p: int, q: int)
    requires
        0 <= p <= q <= fs.len(),
    ensures
        bound_count(fs.take(p)) <= bound_count(fs.take(q)),
    decreases q - p,
{
    if p < q {
        lemma_bound_count_monotone(fs, p, q - 1);
        lemma_bound_count_step(fs, q - 1);
    }
}

proof fn lemma_bound_value_at(fs: Seq<FilterModel>, p: int)
    requires
        0 <= p < fs.len(),
        op_needs_value(fs[p].op),
    ensures
        bound_count(fs.take(p)) < bound_count(fs),
        bound_values(fs)[bound_count(fs.take(p)) as int] == fs[p].value,
    decreases fs.len(),
{
    lemma_bound_values_len(fs.drop_last());
    if p == fs.len() - 1 {
        assert(fs.take(p) =~= fs.drop_last());
    } else {
        lemma_bound_value_at(fs.drop_last(), p);
        assert(fs.drop_last().take(p) =~= fs.take(p));
        assert(fs.take(fs.len() - 1) =~= fs.drop_last());
    }
}

/// The placeholder numbers the conditions of `filters` use, in order: one
/// for each filter that binds a value.
pub open spec fn placeholder_numbers(filters: Seq<FilterModel>, start: nat) -> Seq<nat>
    decreases filters.len(),
{
    if filters.len() == 0 {
        seq![]
    } else {
        placeholder_numbers(filters.drop_last(), start) + if op_needs_value(filters.last().op) {
            seq![start + bound_count(filters.drop_last())]
        } else {
            seq![]
        }
    }
}

proof fn lemma_placeholder_numbers(filters: Seq<FilterModel>, start: nat)
    ensures
        placeholder_numbers(filters, start) == Seq::new(bound_count(filters), |i: int| (start + i) as nat),
    decreases filters.len(),
{
    if filters.len() > 0 {
        lemma_placeholder_numbers(filters.drop_last(), start);
        assert(placeholder_numbers(filters, start) =~= Seq::new(bound_count(filters), |i: int| (start + i) as nat));
    } else {
        assert(placeholder_numbers(filters, start) =~= Seq::new(0, |i: int| (start + i) as nat));
    }
}

/// The WHERE clause is empty exactly when no group holds a filter. Taken
/// together, the groups' filters are numbered in order: the condition of
/// the filter at position `p` uses placeholder `start` plus the number of
/// value-binding filters before it, so each binding filter gets its own
/// number, the numbers rise in filter order, and the parameter bound at
/// that number is the filter's own value. So the numbers used are
/// `start`, `start + 1`, … up to the number of bound parameters, each once.
pub proof fn law_where_clause_numbering(groups: Seq<FilterGroupModel>, start: nat)
    ensures
        where_clause(groups, start).len() == 0 <==> all_filters(groups).len() == 0,
        placeholder_numbers(all_filters(groups), start)
            == Seq::new(groups_bound_count(groups), |i: int| (start + i) as nat),
        filter_conditions(groups, start) == conditions(all_filters(groups), start),
        groups_bound_values(groups) == bound_values(all_filters(groups)),
        forall|p: int| 0 <= p < all_filters(groups).len() ==>
            (#[trigger] conditions(all_filters(groups), start)[p])
                == condition(all_filters(groups)[p], start + bound_count(all_filters(groups).take(p))),
        forall|p: int| 0 <= p < all_filters(groups).len() && op_needs_value((#[trigger] all_filters(groups)[p]).op) ==> {
            &&& bound_count(all_filters(groups).take(p)) < bound_count(all_filters(groups))
            &&& bound_values(all_filters(groups))[bound_count(all_filters(groups).take(p)) as int] == all_filters(groups)[p].value
        },
        forall|p: int, q: int| 0 <= p < q <= all_filters(groups).len() && op_needs_value((#[trigger] all_filters(groups)[p]).op) ==>
            bound_count(all_filters(groups).take(p)) < #[trigger] bound_count(all_filters(groups).take(q)),
{
    let fs = all_filters(groups);
    lemma_flat_groups(groups, start);
    lemma_placeholder_numbers(fs, start);
    lemma_group_conditions_len(groups, start);
    assert forall|p: int| 0 <= p < fs.len() implies
        (#[trigger] conditions(fs, start)[p]) == condition(fs[p], start + bound_count(fs.take(p))) by {
        lemma_conditions_at(fs, start, p);
    }
    assert forall|p: int| 0 <= p < fs.len() && op_needs_value((#[trigger] fs[p]).op) implies {
        &&& bound_count(fs.take(p)) < bound_count(fs)
        &&& bound_values(fs)[bound_count(fs.take(p)) as int] == fs[p].value
    } by {
        lemma_bound_value_at(fs, p);
    }
    assert forall|p: int, q: int| 0 <= p < q <= fs.len() && op_needs_value((#[trigger] fs[p]).op) implies
        bound_count(fs.take(p)) < #[trigger] bound_count(fs.take(q)) by {
        lemma_bound_count_step(fs, p);
        lemma_bound_count_monotone(fs, p + 1, q);
    }
    let cs = group_conditions(groups, start);
    if cs.len() > 0 {
        reveal_strlit(" WHERE ");
        assert((" WHERE "@).len() == 7);
        assert((" WHERE "@ + join(cs, " AND "@)).len() > 0);
    }
}

fn push_condition(out: &mut Vec<String>, f: &Filter, index: usize)
    ensures
        strings_view(final(out)@) == strings_view(old(out)@).push(condition(f@, index as nat)),
{
    let mut s = f.field.clone();
    if !f.op.needs_value() {
        s.append(" ");
        s.append(f.op.as_sql());
    } else if f.op == FilterOp::In {
        s.append(" = ANY($");
        push_decimal(&mut s, index as u64);
        s.append(")");
    } else {
        s.append(" ");
        s.append(f.op.as_sql());
        s.append(" $");
        push_decimal(&mut s, index as u64);
    }
    let ghost sv = s@;
    out.push(s);
    assert(strings_view(out@) =~= strings_view(old(out)@).push(sv));
}

proof fn lemma_bound_count_le(filters: Seq<FilterModel>)
    ensures
        bound_count(filters) <= filters.len(),
    decreases filters.len(),
{
    if filters.len() > 0 {
        lemma_bound_count_le(filters.drop_last());
    }
}

#[verifier::loop_isolation(false)]
fn group_sql(g: &FilterGroup, start: usize) -> (out: (String, usize))
    requires
        start + g@.filters.len() <= usize::MAX,
    ensures
        out.0@ == group_condition(g@, start as nat),
        out.1 == start + bound_count(g@.filters),
{
    let ghost fs = g@.filters;
    let mut conds: Vec<String> = Vec::new();
    let mut index = start;
    let mut k: usize = 0;
    while k < g.filters.len()
        invariant
            k <= g.filters.len(),
            fs == g@.filters,
            start + g@.filters.len() <= usize::MAX,
            index == start + bound_count(fs.take(k as int)),
            bound_count(fs.take(k as int)) <= k,
            strings_view(conds@) == conditions(fs.take(k as int), start as nat),
        decreases g.filters.len() - k,
    {
        let f = &g.filters[k];
        assert(fs.take(k + 1).drop_last() =~= fs.take(k as int));
        assert(fs.take(k + 1).last() == f@);
        push_condition(&mut conds, f, index);
        if f.op.needs_value() {
            index = index + 1;
        }
        k = k + 1;
    }
    assert(fs.take(g.filters.len() as int) =~= fs);
    if conds.len() == 1 {
        let c = conds[0].clone();
        (c, index)
    } else {
        let joined = join_strings(&conds, g.op.as_str());
        assert(conds@.map_values(|p: String| p@) =~= strings_view(conds@));
        let mut s = concat2("(", joined.as_str());
        s.append(")");
        (s, index)
    }
}

pub open spec fn filter_count(groups: Seq<FilterGroupModel>) -> nat
    decreases groups.len(),
{
    if groups.len() == 0 { 0 } else { filter_count(groups.drop_last()) + groups.last().filters.len() }
}

proof fn lemma_groups_bound_le(groups: Seq<FilterGroupModel>)
    ensures
        groups_bound_count(groups) <= filter_count(groups),
    decreases groups.len(),
{
    if groups.len() > 0 {
        lemma_groups_bound_le(groups.drop_last());
        lemma_bound_count_le(groups.last().filters);
    }
}

proof fn lemma_filter_count_prefix(groups: Seq<FilterGroupModel>, k: int)
    requires
        0 <= k <= groups.len(),
    ensures
        filter_count(groups.take(k)) + groups[k].filters.len() <= filter_count(groups) || k == groups.len(),
        filter_count(groups.take(k)) <= filter_count(groups),
    decreases groups.len() - k,
{
    if k < groups.len() {
        lemma_filter_count_prefix(groups, k + 1);
        assert(groups.take(k + 1).drop_last() =~= groups.take(k));
    } else {
        assert(groups.take(k) =~= groups);
    }
}

impl QueryOptions {
    pub fn new() -> (o: QueryOptions)
        ensures
            o@.groups.len() == 0,
            o@.limit is None,
            o@.offset is None,
            o@.sort_by is None,
            o@.sort_order is None,
            o@.then_by.len() == 0,
            !o@.for_share,
    {
        QueryOptions {
            groups: Vec::new(),
            limit: None,
            offset: None,
            sort_by: None,
            sort_order: None,
            then_by: Vec::new(),
            for_share: false,
        }
    }

    /// The ` WHERE …` clause of the filters, parameters numbered from
    /// `param_offset`, and the next free parameter number.
    #[verifier::loop_isolation(false)]
    pub fn build_where_clause(&self, param_offset: usize) -> (out: (String, usize))
        requires
            param_offset + filter_count(self@.groups) <= usize::MAX,
        ensures
            out.0@ == where_clause(self@.groups, param_offset as nat),
            out.1 == param_offset + groups_bound_count(self@.groups),
    {
        let ghost gs = self@.groups;
        let mut conds: Vec<String> = Vec::new();
        let mut index = param_offset;
        let mut k: usize = 0;
        while k < self.groups.len()
            invariant
                k <= self.groups.len(),
                gs == self@.groups,
                param_offset + filter_count(gs) <= usize::MAX,
                index == param_offset + groups_bound_count(gs.take(k as int)),
                strings_view(conds@) == group_conditions(gs.take(k as int), param_offset as nat),
            decreases self.groups.len() - k,
        {
            let g = &self.groups[k];
            assert(gs.take(k + 1).drop_last() =~= gs.take(k as int));
            assert(gs.take(k + 1).last() == g@);
            proof {
                lemma_groups_bound_le(gs.take(k as int));
                lemma_filter_count_prefix(gs, k as int);
            }
            let ghost before = strings_view(conds@);
            if g.filters.len() > 0 {
                let (c, next) = group_sql(g, index);
                let ghost cv = c@;
                conds.push(c);
                assert(strings_view(conds@) =~= before.push(cv));
                index = next;
            }
            k = k + 1;
        }
        assert(gs.take(self.groups.len() as int) =~= gs);
        if conds.len() == 0 {
            proof { reveal_strlit(""); }
            return (String::new(), index);
        }
        let joined = join_strings(&conds, " AND ");
        assert(conds@.map_values(|p: String| p@) =~= strings_view(conds@));
        (concat2(" WHERE ", joined.as_str()), index)
    }

    /// The values the filters bind, in placeholder order.
    #[verifier::loop_isolation(false)]
    pub fn filter_params(&self) -> (params: Vec<&SqlValue>)
        ensures
            params@.map_values(|p: &SqlValue| p@) == groups_bound_values(self@.groups),
    {
        let ghost gs = self@.groups;
        let mut params: Vec<&SqlValue> = Vec::new();
        let mut k: usize = 0;
        while k < self.groups.len()
            invariant
                k <= self.groups.len(),
                gs == self@.groups,
                params@.map_values(|p: &SqlValue| p@) == groups_bound_values(gs.take(k as int)),
            decreases self.groups.len() - k,
        {
            let g = &self.groups[k];
            let ghost fs = g@.filters;
            let ghost base = params@.map_values(|p: &SqlValue| p@);
            let mut m: usize = 0;
            while m < g.filters.len()
                invariant
                    m <= g.filters.len(),
                    fs == g@.filters,
                    params@.map_values(|p: &SqlValue| p@) == base + bound_values(fs.take(m as int)),
                decreases g.filters.len() - m,
            {
                let f = &g.filters[m];
                assert(fs.take(m + 1).drop_last() =~= fs.take(m as int));
                assert(fs.take(m + 1).last() == f@);
                let ghost before = params@.map_values(|p: &SqlValue| p@);
                if f.op.needs_value() {
                    params.push(&f.value);
                    assert(params@.map_values(|p: &SqlValue| p@) =~= before.push(f@.value));
                }
                assert(params@.map_values(|p: &SqlValue| p@) =~= base + bound_values(fs.take(m + 1)));
                m = m + 1;
            }
            assert(fs.take(g.filters.len() as int) =~= fs);
            assert(gs.take(k + 1).drop_last() =~= gs.take(k as int));
            assert(gs.take(k + 1).last() == g@);
            k = k + 1;
        }
        assert(gs.take(self.groups.len() as int) =~= gs);
        params
    }
}

// ---------------------------------------------------------------------------
// ORDER BY, LIMIT, OFFSET, FOR SHARE

pub open spec fn order_or_default(order: Option<SortOrder>) -> SortOrder {
    match order {
        Some(o) => o,
        None => SortOrder::Asc,
    }
}

/// The ORDER BY keys: the primary sort, then the further ones, each only
/// when its field is a plain identifier.
pub open spec fn sort_keys(o: QueryOptionsModel) -> Seq<Seq<char>> {
    (match o.sort_by {
        Some(f) => if identifier(f) { seq![f + " "@ + order_sql(order_or_default(o.sort_order))] } else { seq![] },
        None => seq![],
    }) + crate::text::concat_map(o.then_by, |s: (Seq<char>, SortOrder)|
        if identifier(s.0) { seq![s.0 + " "@ + order_sql(s.1)] } else { seq![] })
}

/// What follows the WHERE clause: ORDER BY, LIMIT, OFFSET and the row lock.
pub open spec fn sql_suffix(o: QueryOptionsModel) -> Seq<char> {
    let keys = sort_keys(o);
    (if keys.len() > 0 { " ORDER BY "@ + join(keys, ", "@) } else { seq![] })
        + (match o.limit {
            Some(n) => " LIMIT "@ + decimal(n as nat),
            None => seq![],
        })
        + (match o.offset {
            Some(n) => " OFFSET "@ + decimal(n as nat),
            None => seq![],
        })
        + (if o.for_share { " FOR SHARE"@ } else { seq![] })
}

fn sort_key(field: &str, order: SortOrder) -> (key: String)
    ensures
        key@ == field@ + " "@ + order_sql(order),
{
    concat3(field, " ", order.as_str())
}

impl QueryOptions {
    pub fn limit(self, limit: u32) -> (o: QueryOptions)
        ensures
            o@ == (QueryOptionsModel { limit: Some(limit), ..self@ }),
    {
        let mut o = self;
        o.limit = Some(limit);
        o
    }

    pub fn offset(self, offset: u32) -> (o: QueryOptions)
        ensures
            o@ == (QueryOptionsModel { offset: Some(offset), ..self@ }),
    {
        let mut o = self;
        o.offset = Some(offset);
        o
    }

    /// Sets the primary sort.
    pub fn sort(self, sort: QuerySort) -> (o: QueryOptions)
        ensures
            o@ == (QueryOptionsModel { sort_by: Some(sort.field@), sort_order: Some(sort.order), ..self@ }),
    {
        let mut o = self;
        o.sort_by = Some(sort.field);
        o.sort_order = Some(sort.order);
        o
    }

    /// Adds a sort key after the ones already given.
    pub fn then_sort(self, sort: QuerySort) -> (o: QueryOptions)
        ensures
            o@ == (QueryOptionsModel { then_by: self@.then_by.push((sort.field@, sort.order)), ..self@ }),
    {
        let mut o = self;
        let ghost before = o@.then_by;
        let ghost sv = (sort.field@, sort.order);
        o.then_by.push(sort);
        assert(o@.then_by =~= before.push(sv));
        o
    }

    /// Locks the selected rows `FOR SHARE`.
    pub fn for_share(self) -> (o: QueryOptions)
        ensures
            o@ == (QueryOptionsModel { for_share: true, ..self@ }),
    {
        let mut o = self;
        o.for_share = true;
        o
    }

    /// Adds a condition as a group of its own; a value that binds nothing
    /// adds none.
    pub fn filter<T: FilterValue>(self, field: &str, op: FilterOp, value: T) -> (o: QueryOptions)
        ensures
            o@ == match value.filter_param(op) {
                Some(p) => QueryOptionsModel {
                    groups: self@.groups.push(FilterGroupModel {
                        filters: seq![FilterModel { field: field@, op, value: p }],
                        op: LogicalOp::And,
                    }),
                    ..self@
                },
                None => self@,
            },
    {
        let mut o = self;
        let ghost before = o@.groups;
        match value.into_filter_value(op) {
            Some(converted) => {
                let mut filters: Vec<Filter> = Vec::new();
                filters.push(Filter { field: owned(field), op, value: converted });
                let g = FilterGroup { filters, op: LogicalOp::And };
                let ghost gv = g@;
                assert(gv.filters =~= seq![FilterModel { field: field@, op, value: value.filter_param(op)->0 }]);
                o.groups.push(g);
                assert(o@.groups =~= before.push(gv));
            },
            None => {},
        }
        o
    }

    /// Adds a group of conditions; an empty group adds nothing.
    pub fn filter_group(self, group: FilterGroup) -> (o: QueryOptions)
        ensures
            o@ == if group@.filters.len() > 0 {
                QueryOptionsModel { groups: self@.groups.push(group@), ..self@ }
            } else {
                self@
            },
    {
        let mut o = self;
        if group.filters.len() > 0 {
            let ghost before = o@.groups;
            let ghost gv = group@;
            o.groups.push(group);
            assert(o@.groups =~= before.push(gv));
        }
        o
    }

    /// ORDER BY (identifier fields only), LIMIT, OFFSET and FOR SHARE.
    #[verifier::loop_isolation(false)]
    pub fn to_sql_suffix(&self) -> (sql: String)
        ensures
            sql@ == sql_suffix(self@),
    {
        let mut keys: Vec<String> = Vec::new();
        match &self.sort_by {
            Some(field) => {
                if is_identifier(field.as_str()) {
                    let order = match self.sort_order {
                        Some(o) => o,
                        None => SortOrder::Asc,
                    };
                    keys.push(sort_key(field.as_str(), order));
                }
            },
            None => {},
        }
        let ghost head = strings_view(keys@);
        let ghost f = |s: (Seq<char>, SortOrder)| if identifier(s.0) { seq![s.0 + " "@ + order_sql(s.1)] } else { seq![] };
        let ghost tb = self@.then_by;
        let mut k: usize = 0;
        while k < self.then_by.len()
            invariant
                k <= self.then_by.len(),
                tb == self@.then_by,
                strings_view(keys@) == head + crate::text::concat_map(tb.take(k as int), f),
            decreases self.then_by.len() - k,
        {
            let s = &self.then_by[k];
            assert(tb[k as int] == (s.field@, s.order));
            let ghost before = strings_view(keys@);
            if is_identifier(s.field.as_str()) {
                keys.push(sort_key(s.field.as_str(), s.order));
                assert(strings_view(keys@) =~= before.push(s.field@ + " "@ + order_sql(s.order)));
            }
            proof { crate::text::lemma_concat_map_step(tb, f, k as int); }
            assert(strings_view(keys@) =~= head + crate::text::concat_map(tb.take(k + 1), f));
            k = k + 1;
        }
        assert(tb.take(self.then_by.len() as int) =~= tb);
        assert(strings_view(keys@) =~= sort_keys(self@));
        let mut sql = String::new();
        proof { reveal_strlit(""); }
        if keys.len() > 0 {
            sql.append(" ORDER BY ");
            let joined = join_strings(&keys, ", ");
            assert(keys@.map_values(|p: String| p@) =~= strings_view(keys@));
            sql.append(joined.as_str());
        }
        let ghost a = sql@;
        match self.limit {
            Some(n) => {
                sql.append(" LIMIT ");
                push_decimal(&mut sql, n as u64);
            },
            None => {},
        }
        let ghost b = sql@;
        match self.offset {
            Some(n) => {
                sql.append(" OFFSET ");
                push_decimal(&mut sql, n as u64);
            },
            None => {},
        }
        let ghost c = sql@;
        if self.for_share {
            sql.append(" FOR SHARE");
        }
        assert(sql@ =~= sql_suffix(self@));
        sql
    }

    /// Options straight from the standard list query parameters: paging
    /// defaulted and capped, an optional sort and an optional search. Sort
    /// and search fields that are not plain identifiers are ignored.
    pub fn from_params(pagination: Pagination, sort: Sort, search: Search) -> (o: QueryOptions)
        ensures
            o@.limit == Some(match pagination.limit {
                Some(n) => if n > MAX_LIMIT { MAX_LIMIT } else { n },
                None => DEFAULT_LIMIT,
            }),
            o@.offset == Some(match pagination.offset {
                Some(n) => n,
                None => 0u32,
            }),
            o@.groups == if search_group(search.query, search.fields).filters.len() > 0 {
                seq![search_group(search.query, search.fields)]
            } else {
                Seq::<FilterGroupModel>::empty()
            },
            match sort.sort_by {
                Some(f) => if identifier(f@) {
                    o@.sort_by == Some(f@) && o@.sort_order == Some(order_or_default(sort.sort_order))
                } else {
                    o@.sort_by is None && o@.sort_order is None
                },
                None => o@.sort_by is None && o@.sort_order is None,
            },
            o@.then_by.len() == 0,
            !o@.for_share,
    {
        let requested = match pagination.limit {
            Some(n) => n,
            None => DEFAULT_LIMIT,
        };
        let limit = if requested > MAX_LIMIT { MAX_LIMIT } else { requested };
        let offset = match pagination.offset {
            Some(n) => n,
            None => 0,
        };
        let group = FilterGroup::from_search(search);
        let ghost gv = group@;
        let base = QueryOptions::new().limit(limit).offset(offset);
        assert(base@.groups.push(gv) =~= seq![gv]);
        let mut options = base.filter_group(group);
        match sort.sort_by {
            Some(field) => {
                if is_identifier(field.as_str()) {
                    let order = match sort.sort_order {
                        Some(o) => o,
                        None => SortOrder::Asc,
                    };
                    options = options.sort(QuerySort { field, order });
                }
            },
            None => {},
        }
        options
    }
}

} // verus!
