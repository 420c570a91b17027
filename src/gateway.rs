//! The query gateway's rules: which queries it accepts, and how the single
//! output column of the result is streamed as little-endian 32-bit words.

use vstd::prelude::*;
use vstd::string::*;
use crate::dto::{has_pagination_keyword, paginated_query, SQLRequest};
use crate::pipeline::{batches_of, finish_step, handed_after, opt_seq, pending_after, push_step};
use crate::wire::views;
use crate::text::{lower_of, to_lowercase};
use crate::wire::{le32, write_u32};
use sqlparser::ast::{Expr, SelectItem, SetExpr, Statement};
use sqlparser::dialect::PostgreSqlDialect;
use sqlparser::parser::Parser;

verus! {

/// What `sqlparser::parser::Parser::parse_sql` finds in a text under the
/// PostgreSQL dialect: nothing where it fails; else, per statement, nothing
/// for one that is not a plain `SELECT`, and for a `SELECT` the output name
/// of each projected item: a bare column's identifier or an expression's
/// alias, nothing for any other item.
pub uninterp spec fn select_outputs(sql: Seq<char>) -> Option<Seq<Option<Seq<Option<Seq<char>>>>>>;

/// Relies on `sqlparser::parser::Parser::parse_sql` (PostgreSQL dialect): the
/// statements it parses depend on the text alone.
#[verifier::external_body]
fn parse_select_outputs(sql: &str) -> (r: Option<Vec<Option<Vec<Option<String>>>>>)
    ensures
        r.deep_view() == select_outputs(sql@),
{
    let ast = Parser::parse_sql(&PostgreSqlDialect {}, sql).ok()?;
    Some(ast.into_iter().map(|st| match st {
        Statement::Query(q) => match *q.body {
            SetExpr::Select(sel) => Some(sel.projection.into_iter().map(|item| match item {
                SelectItem::UnnamedExpr(Expr::Identifier(id)) => Some(id.value),
                SelectItem::ExprWithAlias { alias, .. } => Some(alias.value),
                _ => None,
            }).collect()),
            _ => None,
        },
        _ => None,
    }).collect())
}

/// The output name that a query must return, compared case-insensitively.
pub open spec fn gallery_id_name() -> Seq<char> {
    "gallery_id"@
}

/// The parse is one `SELECT` that projects exactly one item, whose output
/// name is `gallery_id` in any letter case.
pub open spec fn single_gallery_id_select(outputs: Option<Seq<Option<Seq<Option<Seq<char>>>>>>) -> bool {
    match outputs {
        Some(stmts) => stmts.len() == 1 && match stmts[0] {
            Some(items) => items.len() == 1 && match items[0] {
                Some(name) => lower_of(name) == gallery_id_name(),
                None => false,
            },
            None => false,
        },
        None => false,
    }
}

/// Decides, from what the parser found, whether a query returns the single
/// column `gallery_id`.
pub fn projects_only_gallery_id(outputs: &Option<Vec<Option<Vec<Option<String>>>>>) -> (r: bool)
    ensures
        r == single_gallery_id_select(outputs.deep_view()),
{
    match outputs {
        Some(stmts) => {
            if stmts.len() != 1 {
                return false;
            }
            match &stmts[0] {
                Some(items) => {
                    if items.len() != 1 {
                        return false;
                    }
                    match &items[0] {
                        Some(name) => {
                            let lower = to_lowercase(name.as_str());
                            let expected = String::from_str("gallery_id");
                            assert(items.deep_view()[0] == items[0].deep_view());
                            assert(stmts.deep_view()[0] == stmts[0].deep_view());
                            lower == expected
                        },
                        None => false,
                    }
                },
                None => false,
            }
        },
        None => false,
    }
}

/// Whether a query text is one `SELECT` whose only output column is
/// `gallery_id`, by its identifier or its alias, in any letter case.
pub fn is_only_gallery_id_returned(sql: &str) -> (r: bool)
    ensures
        r == single_gallery_id_select(select_outputs(sql@)),
{
    let outputs = parse_select_outputs(sql);
    projects_only_gallery_id(&outputs)
}


/// Why the gateway refuses a request before running it; both are answered
/// with status 400.
#[derive(Clone, Copy, Debug, PartialEq, Eq, Structural)]
pub enum QueryRejection {
    /// The caller's query already holds `LIMIT` or `OFFSET`.
    PaginationInQuery,
    /// The query is not one `SELECT` whose only output column is `gallery_id`.
    NotOnlyGalleryId,
}

impl QueryRejection {
    /// The HTTP status of the refusal.
    pub fn status(&self) -> (r: u16)
        ensures
            r == 400,
    {
        400
    }

    /// The message returned to the caller.
    pub fn message(&self) -> (r: String)
        ensures
            *self == QueryRejection::PaginationInQuery ==> r@
                == "The SQL query should not contain LIMIT or OFFSET clauses."@,
            *self == QueryRejection::NotOnlyGalleryId ==> r@
                == "SQL must return only 'gallery_id' column."@,
    {
        match self {
            QueryRejection::PaginationInQuery => String::from_str(
                "The SQL query should not contain LIMIT or OFFSET clauses.",
            ),
            QueryRejection::NotOnlyGalleryId => String::from_str(
                "SQL must return only 'gallery_id' column.",
            ),
        }
    }
}

/// Validates a request and returns the query to run, with the server's
/// pagination appended; or why the request is refused.
pub fn validate_request(req: &SQLRequest) -> (r: Result<String, QueryRejection>)
    ensures
        r matches Err(QueryRejection::PaginationInQuery) <==> has_pagination_keyword(req.query@),
        r matches Ok(sql) ==> sql@ == paginated_query(req.query@, req.limit, req.offset),
        r is Ok <==> !has_pagination_keyword(req.query@) && single_gallery_id_select(
            select_outputs(paginated_query(req.query@, req.limit, req.offset)),
        ),
{
    match req.build_paginated_query() {
        Err(_) => Err(QueryRejection::PaginationInQuery),
        Ok(sql) => {
            if is_only_gallery_id_returned(sql.as_str()) {
                Ok(sql)
            } else {
                Err(QueryRejection::NotOnlyGalleryId)
            }
        },
    }
}

/// The little-endian 32-bit words of a sequence of ids, one after the other.
pub open spec fn ids_bytes(ids: Seq<i32>) -> Seq<u8>
    decreases ids.len(),
{
    if ids.len() == 0 {
        seq![]
    } else {
        ids_bytes(ids.drop_last()) + le32(ids.last() as u32)
    }
}

/// Packs a batch of ids into one buffer of little-endian 32-bit words.
pub fn encode_id_batch(ids: &[i32]) -> (r: Vec<u8>)
    ensures
        r@ == ids_bytes(ids@),
{
    let mut out: Vec<u8> = Vec::new();
    let mut i: usize = 0;
    while i < ids.len()
        invariant
            i <= ids@.len(),
            out@ == ids_bytes(ids@.take(i as int)),
        decreases ids@.len() - i,
    {
        write_u32(&mut out, ids[i] as u32);
        assert(ids@.take(i + 1).drop_last() =~= ids@.take(i as int));
        i = i + 1;
    }
    assert(ids@.take(i as int) =~= ids@);
    out
}


/// The ids of a sequence of rows whose output value could be read.
pub open spec fn ids_of(vs: Seq<Option<i32>>) -> Seq<i32> {
    vs.map_values(|o: Option<i32>| match o {
        Some(x) => x,
        None => 0i32,
    })
}

/// `k` is the index of the first row whose value could not be read, or the
/// number of rows where every value could be read.
pub open spec fn first_unreadable(vs: Seq<Option<i32>>, k: int) -> bool {
    &&& 0 <= k <= vs.len()
    &&& forall|i: int| 0 <= i < k ==> (#[trigger] vs[i]) is Some
    &&& k < vs.len() ==> vs[k] is None
}

/// The buffer of each batch of ids.
pub open spec fn chunk_bytes(bs: Seq<Seq<i32>>) -> Seq<Seq<u8>> {
    bs.map_values(|c: Seq<i32>| ids_bytes(c))
}

/// The chunks streamed for rows whose first unreadable value is at `k`: one
/// buffer per `b` rows, the last one partial, when every value can be read;
/// else the buffers of the batches completed before row `k`, and no more.
pub open spec fn streamed(vs: Seq<Option<i32>>, b: nat, k: int) -> Seq<Seq<u8>> {
    if k == vs.len() {
        chunk_bytes(batches_of(ids_of(vs), b))
    } else {
        chunk_bytes(handed_after(ids_of(vs.take(k)), b))
    }
}

/// Streams the output column of a result: the rows in groups of
/// `batch_size`, each group packed into one buffer of little-endian 32-bit
/// words. At the first row whose value cannot be read the stream stops, and
/// the second result is `false`: the chunks sent before it stand.
#[verifier::spinoff_prover]
#[verifier::rlimit(40)]
pub fn encode_id_stream(values: &Vec<Option<i32>>, batch_size: usize) -> (r: (Vec<Vec<u8>>, bool))
    requires
        batch_size > 0,
    ensures
        exists|k: int| #![trigger first_unreadable(values@, k)]
            first_unreadable(values@, k) && views(r.0@) == streamed(values@, batch_size as nat, k)
                && (r.1 <==> k == values@.len()),
{
    let ghost b = batch_size as nat;
    let mut chunks: Vec<Vec<u8>> = Vec::new();
    let mut pending: Vec<i32> = Vec::new();
    let mut i: usize = 0;
    assert(ids_of(values@.take(0)) =~= Seq::<i32>::empty());
    assert(views(chunks@) =~= chunk_bytes(Seq::<Seq<i32>>::empty()));
    while i < values.len()
        invariant
            b == batch_size as nat,
            b > 0,
            i <= values@.len(),
            forall|j: int| 0 <= j < i ==> (#[trigger] values@[j]) is Some,
            pending@ == pending_after(ids_of(values@.take(i as int)), b),
            views(chunks@) == chunk_bytes(handed_after(ids_of(values@.take(i as int)), b)),
        decreases values@.len() - i,
    {
        match values[i] {
            None => {
                assert(first_unreadable(values@, i as int));
                return (chunks, false);
            },
            Some(x) => {
                let ghost t = ids_of(values@.take(i as int));
                let ghost step = push_step(pending@, x, b);
                assert(ids_of(values@.take(i + 1)) =~= t.push(x));
                assert(t.push(x).drop_last() =~= t);
                pending.push(x);
                if pending.len() >= batch_size {
                    let ghost pv = pending@;
                    let ghost before = views(chunks@);
                    let chunk = encode_id_batch(pending.as_slice());
                    assert(step.1 == Some(pv));
                    assert(opt_seq(step.1) =~= seq![pv]);
                    chunks.push(chunk);
                    pending = Vec::new();
                    assert(views(chunks@) =~= before.push(ids_bytes(pv)));
                    assert(chunk_bytes(handed_after(t, b) + seq![pv]) =~= chunk_bytes(handed_after(t, b)).push(ids_bytes(pv)));
                } else {
                    assert(views(chunks@) =~= chunk_bytes(handed_after(t, b) + opt_seq(step.1)));
                }
                assert(pending@ =~= step.0);
            },
        }
        i = i + 1;
    }
    assert(values@.take(i as int) =~= values@);
    let ghost ids = ids_of(values@);
    if pending.len() > 0 {
        let ghost pv = pending@;
        let ghost before = views(chunks@);
        let chunk = encode_id_batch(pending.as_slice());
        chunks.push(chunk);
        assert(views(chunks@) =~= before.push(ids_bytes(pv)));
        assert(opt_seq(finish_step(pv)) =~= seq![pv]);
        assert(chunk_bytes(handed_after(ids, b) + seq![pv]) =~= chunk_bytes(handed_after(ids, b)).push(ids_bytes(pv)));
    } else {
        assert(opt_seq(finish_step(pending@)) =~= Seq::<Seq<i32>>::empty());
        assert(handed_after(ids, b) + Seq::<Seq<i32>>::empty() =~= handed_after(ids, b));
    }
    assert(views(chunks@) =~= chunk_bytes(handed_after(ids, b) + opt_seq(finish_step(pending_after(ids, b)))));
    assert(first_unreadable(values@, values@.len() as int));
    (chunks, true)
}

} // verus!
