//! The gateway's request and the pagination the server appends to it.

use vstd::prelude::*;
use vstd::string::*;
use crate::text::{contains_seq, contains_text, decimal, lower_of, push_decimal, to_lowercase};

verus! {

/// A caller's read query with its pagination and streaming parameters.
#[derive(Debug, PartialEq)]
pub struct SQLRequest {
    pub query: String,
    pub offset: u32,
    pub limit: u32,
    pub batch_size: u32,
}

/// The offset used when a request gives none.
pub fn default_offset() -> (r: u32)
    ensures
        r == 0,
{
    0
}

/// The limit used when a request gives none: the largest count a `u32` holds.
pub fn default_limit() -> (r: u32)
    ensures
        r == u32::MAX,
{
    u32::MAX
}

/// The number of rows per streamed chunk when a request gives none.
pub fn default_batch_size() -> (r: u32)
    ensures
        r == 1000,
{
    1000
}

/// The query text, case-insensitively, holds `limit` or `offset`.
pub open spec fn has_pagination_keyword(query: Seq<char>) -> bool {
    contains_seq(lower_of(query), "limit"@) || contains_seq(lower_of(query), "offset"@)
}

/// The query with the server's pagination clause appended.
pub open spec fn paginated_query(query: Seq<char>, limit: u32, offset: u32) -> Seq<char> {
    query + " LIMIT "@ + decimal(limit as nat) + " OFFSET "@ + decimal(offset as nat)
}

impl SQLRequest {
    /// Whether the caller's query already holds a pagination keyword.
    pub fn contains_pagination_keywords(&self) -> (r: bool)
        ensures
            r == has_pagination_keyword(self.query@),
    {
        let q = to_lowercase(self.query.as_str());
        contains_text(q.as_str(), "limit") || contains_text(q.as_str(), "offset")
    }

    /// The query with `LIMIT <limit> OFFSET <offset>` appended, or an error
    /// when the caller's query already paginates itself.
    pub fn build_paginated_query(&self) -> (r: Result<String, String>)
        ensures
            r is Ok <==> !has_pagination_keyword(self.query@),
            r matches Ok(s) ==> s@ == paginated_query(self.query@, self.limit, self.offset),
            r matches Err(m) ==> m@ == "The SQL query should not contain LIMIT or OFFSET clauses."@,
    {
        if self.contains_pagination_keywords() {
            Err(String::from_str("The SQL query should not contain LIMIT or OFFSET clauses."))
        } else {
            let mut sql = self.query.clone();
            sql.append(" LIMIT ");
            push_decimal(&mut sql, self.limit as u64);
            sql.append(" OFFSET ");
            push_decimal(&mut sql, self.offset as u64);
            Ok(sql)
        }
    }
}

} // verus!
