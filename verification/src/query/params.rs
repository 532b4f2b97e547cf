//! The standard list query parameters: paging, sorting and search.

use vstd::prelude::*;

use crate::schema::model::strings_view;
use crate::text::{char_position, find_char, owned, trim, trimmed};

verus! {

/// Which page of results: both optional, defaulted by the query builder.
pub struct Pagination {
    pub limit: Option<u32>,
    pub offset: Option<u32>,
}

/// The requested sort column and direction.
pub struct Sort {
    pub sort_by: Option<String>,
    pub sort_order: Option<SortOrder>,
}

#[derive(Clone, Copy, PartialEq, Eq, Structural, Debug)]
pub enum SortOrder {
    Asc,
    Desc,
}

impl Default for SortOrder {
    fn default() -> (order: SortOrder)
        ensures
            order == SortOrder::Asc,
    {
        SortOrder::Asc
    }
}

pub open spec fn order_sql(order: SortOrder) -> Seq<char> {
    match order {
        SortOrder::Asc => "ASC"@,
        SortOrder::Desc => "DESC"@,
    }
}

impl SortOrder {
    pub fn as_str(&self) -> (sql: &'static str)
        ensures
            sql@ == order_sql(*self),
    {
        match self {
            SortOrder::Asc => "ASC",
            SortOrder::Desc => "DESC",
        }
    }
}

/// A free-text search over some comma-separated fields.
pub struct Search {
    pub query: Option<String>,
    pub fields: Option<String>,
}

/// The pieces of `s` between commas, as `str::split(',')` yields them.
pub open spec fn comma_pieces(s: Seq<char>) -> Seq<Seq<char>>
    decreases s.len(),
{
    match char_position(s, ',') {
        Some(i) => seq![s.take(i)] + comma_pieces(s.skip(i + 1)),
        None => seq![s],
    }
}

/// The trimmed, non-empty pieces of a comma-separated list.
pub open spec fn field_names(fields: Seq<char>) -> Seq<Seq<char>> {
    crate::text::concat_map(comma_pieces(fields), |p: Seq<char>| if trim(p).len() > 0 { seq![trim(p)] } else { seq![] })
}

impl Search {
    /// The `fields` value split into individual, trimmed column names.
    #[verifier::loop_isolation(false)]
    pub fn field_list(&self) -> (names: Vec<String>)
        ensures
            strings_view(names@) == match self.fields {
                Some(f) => field_names(f@),
                None => Seq::empty(),
            },
    {
        let mut names: Vec<String> = Vec::new();
        match &self.fields {
            None => {
                assert(strings_view(names@) =~= Seq::<Seq<char>>::empty());
                names
            },
            Some(fields) => {
                let ghost f = |p: Seq<char>| if trim(p).len() > 0 { seq![trim(p)] } else { seq![] };
                let mut rest: String = fields.clone();
                loop
                    invariant
                        crate::text::concat_map(comma_pieces(fields@), f) == strings_view(names@) + crate::text::concat_map(comma_pieces(rest@), f),
                    decreases rest@.len(),
                {
                    let n = rest.as_str().unicode_len();
                    let ghost before = strings_view(names@);
                    let ghost r = rest@;
                    match find_char(rest.as_str(), ',') {
                        Some(i) => {
                            proof {
                                let w = choose|w: int| 0 <= w < r.len() && r[w] == ',' && forall|j: int| 0 <= j < w ==> r[j] != ',';
                            }
                            let piece = trimmed(rest.as_str().substring_char(0, i));
                            assert(comma_pieces(r) == seq![r.take(i as int)] + comma_pieces(r.skip(i + 1)));
                            proof { crate::text::lemma_concat_map_append(seq![r.take(i as int)], comma_pieces(r.skip(i + 1)), f); }
                            proof { crate::text::lemma_concat_map_single(r.take(i as int), f); }
                            if piece.as_str().unicode_len() > 0 {
                                let ghost pv = piece@;
                                names.push(piece);
                                assert(strings_view(names@) =~= before.push(pv));
                            }
                            assert(strings_view(names@) =~= before + f(r.take(i as int)));
                            let next = owned(rest.as_str().substring_char(i + 1, n));
                            assert(next@ =~= r.skip(i + 1));
                            rest = next;
                        },
                        None => {
                            let piece = trimmed(rest.as_str());
                            assert(comma_pieces(r) == seq![r]);
                            proof { crate::text::lemma_concat_map_single(r, f); }
                            if piece.as_str().unicode_len() > 0 {
                                let ghost pv = piece@;
                                names.push(piece);
                                assert(strings_view(names@) =~= before.push(pv));
                            }
                            assert(strings_view(names@) =~= before + f(r));
                            return names;
                        },
                    }
                }
            },
        }
    }
}

} // verus!
