//! The decisions of the ingestion pipeline: which lines carry records, how a
//! record becomes a stored blob, how blobs are grouped into batches for the
//! queue, and the bulk insert that stores a batch.

use vstd::prelude::*;
use crate::codec::{encode_failure, gallery_wire, serialize_gallery, CodecError};
use crate::compress::{compress, zstd_frame};
use vstd::pervasive::unreached;
use crate::gallery::{Gallery, GalleryView};
use crate::text::{chars_of, decimal, push_decimal};
use vstd::string::*;
use crate::wire::views;

verus! {

/// A character that `char::is_whitespace` accepts: the Unicode `White_Space` set.
pub open spec fn is_white(c: char) -> bool {
    ('\u{9}' <= c && c <= '\u{d}') || c == ' ' || c == '\u{85}' || c == '\u{a0}' || c == '\u{1680}'
        || ('\u{2000}' <= c && c <= '\u{200a}') || c == '\u{2028}' || c == '\u{2029}' || c
        == '\u{202f}' || c == '\u{205f}' || c == '\u{3000}'
}

/// A line that holds nothing but white space.
pub open spec fn blank_line(s: Seq<char>) -> bool {
    forall|i: int| 0 <= i < s.len() ==> #[trigger] is_white(s[i])
}

fn is_white_exec(c: char) -> (r: bool)
    ensures
        r == is_white(c),
{
    ('\u{9}' <= c && c <= '\u{d}') || c == ' ' || c == '\u{85}' || c == '\u{a0}' || c == '\u{1680}'
        || ('\u{2000}' <= c && c <= '\u{200a}') || c == '\u{2028}' || c == '\u{2029}' || c
        == '\u{202f}' || c == '\u{205f}' || c == '\u{3000}'
}

/// Whether a source line is blank, and so carries no record.
pub fn is_blank_line(line: &str) -> (r: bool)
    ensures
        r == blank_line(line@),
{
    let cs = chars_of(line);
    let mut i: usize = 0;
    while i < cs.len()
        invariant
            cs@ == line@,
            i <= cs@.len(),
            forall|k: int| 0 <= k < i ==> #[trigger] is_white(cs@[k]),
        decreases cs@.len() - i,
    {
        if !is_white_exec(cs[i]) {
            return false;
        }
        i = i + 1;
    }
    true
}

/// A compressed record as it is stored: its key, its compressed bytes and the
/// id of the compression codec.
#[derive(Debug, PartialEq)]
pub struct BlobRow {
    pub gallery_id: i32,
    pub data: Vec<u8>,
    pub compress_type: i32,
}

/// The model of a stored blob.
pub struct StoredBlob {
    pub key: i32,
    pub data: Seq<u8>,
    pub codec: i32,
}

impl View for BlobRow {
    type V = StoredBlob;

    open spec fn view(&self) -> StoredBlob {
        StoredBlob { key: self.gallery_id, data: self.data@, codec: self.compress_type }
    }
}

/// The blob stored for a record: its encoding, compressed at `level`.
pub open spec fn blob_of(g: GalleryView, codec: i32, level: i32) -> StoredBlob {
    StoredBlob { key: g.gallery_id, data: zstd_frame(gallery_wire(g, false), level), codec }
}

/// Encodes and compresses a record into the blob that stores it. Fails, with
/// the codec's error, exactly when the record cannot be encoded.
pub fn prepare_row(g: &Gallery, compress_type: i32, level: i32) -> (r: Result<BlobRow, CodecError>)
    ensures
        r is Ok <==> encode_failure(g@) is None,
        r matches Ok(row) ==> row@ == blob_of(g@, compress_type, level),
        r matches Err(e) ==> Some(e.kind) == encode_failure(g@) && e.gallery_id == Some(g.gallery_id),
{
    let bytes = serialize_gallery(g)?;
    let packed = match compress(bytes.as_slice(), level) {
        Ok(c) => c,
        Err(_) => unreached(),
    };
    Ok(BlobRow { gallery_id: g.gallery_id, data: packed, compress_type })
}


/// One record joins the pending batch; a batch that reaches `b` records is
/// handed off and the pending batch starts empty again.
pub open spec fn push_step<R>(pending: Seq<R>, x: R, b: nat) -> (Seq<R>, Option<Seq<R>>) {
    if pending.len() + 1 >= b {
        (seq![], Some(pending.push(x)))
    } else {
        (pending.push(x), None)
    }
}

/// At the end of the source, a pending batch that holds records is handed off.
pub open spec fn finish_step<R>(pending: Seq<R>) -> Option<Seq<R>> {
    if pending.len() > 0 {
        Some(pending)
    } else {
        None
    }
}

pub open spec fn opt_seq<T>(o: Option<T>) -> Seq<T> {
    match o {
        Some(x) => seq![x],
        None => seq![],
    }
}

/// The pending batch after the records `rows`.
pub open spec fn pending_after<R>(rows: Seq<R>, b: nat) -> Seq<R>
    decreases rows.len(),
{
    if rows.len() == 0 {
        seq![]
    } else {
        push_step(pending_after(rows.drop_last(), b), rows.last(), b).0
    }
}

/// The batches handed off while the records `rows` are pushed.
pub open spec fn handed_after<R>(rows: Seq<R>, b: nat) -> Seq<Seq<R>>
    decreases rows.len(),
{
    if rows.len() == 0 {
        seq![]
    } else {
        handed_after(rows.drop_last(), b) + opt_seq(
            push_step(pending_after(rows.drop_last(), b), rows.last(), b).1,
        )
    }
}

/// Every batch handed off for a source whose accepted records are `rows`,
/// in order, the final partial batch included.
pub open spec fn batches_of<R>(rows: Seq<R>, b: nat) -> Seq<Seq<R>> {
    handed_after(rows, b) + opt_seq(finish_step(pending_after(rows, b)))
}

/// The records of a sequence of batches, one batch after the other.
pub open spec fn flatten<R>(bs: Seq<Seq<R>>) -> Seq<R>
    decreases bs.len(),
{
    if bs.len() == 0 {
        seq![]
    } else {
        flatten(bs.drop_last()) + bs.last()
    }
}

proof fn lemma_flatten_push<R>(bs: Seq<Seq<R>>, x: Seq<R>)
    ensures
        flatten(bs.push(x)) == flatten(bs) + x,
{
    assert(bs.push(x).drop_last() =~= bs);
}

proof fn lemma_run_invariant<R>(rows: Seq<R>, b: nat)
    requires
        b > 0,
    ensures
        flatten(handed_after(rows, b)) + pending_after(rows, b) == rows,
        pending_after(rows, b).len() < b,
        forall|i: int| 0 <= i < handed_after(rows, b).len() ==> (#[trigger] handed_after(rows, b)[i]).len() == b,
    decreases rows.len(),
{
    if rows.len() == 0 {
        assert(flatten(Seq::<Seq<R>>::empty()) + Seq::<R>::empty() =~= rows);
    } else {
        let init = rows.drop_last();
        lemma_run_invariant(init, b);
        let p = pending_after(init, b);
        let h = handed_after(init, b);
        assert(init.push(rows.last()) =~= rows);
        if p.len() + 1 >= b {
            lemma_flatten_push(h, p.push(rows.last()));
            assert(flatten(h) + p.push(rows.last()) + Seq::<R>::empty() =~= rows);
            assert(h + opt_seq(Some(p.push(rows.last()))) =~= h.push(p.push(rows.last())));
        } else {
            assert(h + opt_seq(None::<Seq<R>>) =~= h);
            assert(flatten(h) + p.push(rows.last()) =~= rows);
        }
    }
}

/// No record is dropped at the end of a source: the batches handed off hold
/// every accepted record, in source order, each batch holds between one and
/// `b` records, and all but the last hold exactly `b`.
pub proof fn lemma_partial_batch_flushed<R>(rows: Seq<R>, b: nat)
    requires
        b > 0,
    ensures
        flatten(batches_of(rows, b)) == rows,
        forall|i: int| 0 <= i < batches_of(rows, b).len() ==> 1 <= (#[trigger] batches_of(rows, b)[i]).len() <= b,
        forall|i: int| 0 <= i < batches_of(rows, b).len() - 1 ==> (#[trigger] batches_of(rows, b)[i]).len() == b,
{
    lemma_run_invariant(rows, b);
    let h = handed_after(rows, b);
    let p = pending_after(rows, b);
    if p.len() > 0 {
        assert(batches_of(rows, b) =~= h.push(p));
        lemma_flatten_push(h, p);
    } else {
        assert(batches_of(rows, b) =~= h);
        assert(flatten(h) + p =~= flatten(h));
    }
}

/// The number of records in a sequence of batches.
pub open spec fn total_len<R>(bs: Seq<Seq<R>>) -> nat
    decreases bs.len(),
{
    if bs.len() == 0 {
        0
    } else {
        total_len(bs.drop_last()) + bs.last().len()
    }
}

proof fn lemma_total_bound<R>(bs: Seq<Seq<R>>, b: nat)
    requires
        forall|i: int| 0 <= i < bs.len() ==> (#[trigger] bs[i]).len() <= b,
    ensures
        total_len(bs) <= bs.len() * b,
    decreases bs.len(),
{
    if bs.len() > 0 {
        let init = bs.drop_last();
        assert forall|i: int| 0 <= i < init.len() implies (#[trigger] init[i]).len() <= b by {
            assert(init[i] == bs[i]);
        }
        lemma_total_bound(init, b);
        assert(bs.last() == bs[bs.len() - 1]);
        assert((init.len() + 1) * b == init.len() * b + b) by (nonlinear_arith);
    }
}

/// Backpressure bound: whatever the length of the source, any `q` consecutive
/// batches of the run (what a queue of capacity `q` can hold at once) carry
/// at most `q * b` records.
pub proof fn lemma_queue_holds_at_most<R>(rows: Seq<R>, b: nat, start: int, q: nat)
    requires
        b > 0,
        0 <= start,
        start + q <= batches_of(rows, b).len(),
    ensures
        total_len(batches_of(rows, b).subrange(start, start + q)) <= q * b,
{
    lemma_partial_batch_flushed(rows, b);
    let w = batches_of(rows, b).subrange(start, start + q);
    assert forall|i: int| 0 <= i < w.len() implies (#[trigger] w[i]).len() <= b by {
        assert(w[i] == batches_of(rows, b)[start + i]);
    }
    lemma_total_bound(w, b);
}


/// The batch-forming side of a producer: it holds the pending batch of blobs
/// and hands off a batch when it is full, and the partial one at the end.
pub struct Producer {
    batch_size: usize,
    pending: Vec<BlobRow>,
}

/// The models of an optional batch.
pub open spec fn batch_view(o: Option<Vec<BlobRow>>) -> Option<Seq<StoredBlob>> {
    match o {
        Some(v) => Some(views(v@)),
        None => None,
    }
}

impl Producer {
    pub closed spec fn batch_size(&self) -> nat {
        self.batch_size as nat
    }

    /// The blobs accepted since the last batch was handed off.
    pub closed spec fn pending(&self) -> Seq<StoredBlob> {
        views(self.pending@)
    }

    pub closed spec fn wf(&self) -> bool {
        self.batch_size > 0 && self.pending@.len() < self.batch_size
    }

    /// A producer that hands off batches of `batch_size` blobs.
    pub fn new(batch_size: usize) -> (p: Producer)
        requires
            batch_size > 0,
        ensures
            p.wf(),
            p.batch_size() == batch_size,
            p.pending() == Seq::<StoredBlob>::empty(),
    {
        let p = Producer { batch_size, pending: Vec::new() };
        assert(views(p.pending@) =~= Seq::<StoredBlob>::empty());
        p
    }

    /// Adds a blob to the pending batch; returns the batch to hand off when
    /// it has become full.
    pub fn push(&mut self, row: BlobRow) -> (r: Option<Vec<BlobRow>>)
        requires
            old(self).wf(),
        ensures
            final(self).wf(),
            final(self).batch_size() == old(self).batch_size(),
            (final(self).pending(), batch_view(r)) == push_step(
                old(self).pending(),
                row@,
                old(self).batch_size(),
            ),
    {
        let ghost before = views(self.pending@);
        self.pending.push(row);
        assert(views(self.pending@) =~= before.push(row@));
        if self.pending.len() >= self.batch_size {
            let mut batch: Vec<BlobRow> = Vec::new();
            std::mem::swap(&mut batch, &mut self.pending);
            assert(views(self.pending@) =~= Seq::<StoredBlob>::empty());
            Some(batch)
        } else {
            None
        }
    }

    /// Ends the source: returns the pending batch if it holds any blob.
    pub fn finish(&mut self) -> (r: Option<Vec<BlobRow>>)
        requires
            old(self).wf(),
        ensures
            final(self).wf(),
            final(self).batch_size() == old(self).batch_size(),
            final(self).pending() == Seq::<StoredBlob>::empty(),
            batch_view(r) == finish_step(old(self).pending()),
    {
        let mut batch: Vec<BlobRow> = Vec::new();
        std::mem::swap(&mut batch, &mut self.pending);
        assert(views(self.pending@) =~= Seq::<StoredBlob>::empty());
        if batch.len() > 0 {
            Some(batch)
        } else {
            None
        }
    }
}


/// The store after inserting `rows` one by one, where a row whose key is
/// already stored is left out: the first blob stored for a key stays.
pub open spec fn insert_rows(store: Map<i32, StoredBlob>, rows: Seq<StoredBlob>) -> Map<i32, StoredBlob>
    decreases rows.len(),
{
    if rows.len() == 0 {
        store
    } else {
        let s = insert_rows(store, rows.drop_last());
        let x = rows.last();
        if s.contains_key(x.key) {
            s
        } else {
            s.insert(x.key, x)
        }
    }
}

/// The store after one bulk insert per batch, in order, each doing nothing
/// for a key that is already stored.
pub open spec fn stored_after(store: Map<i32, StoredBlob>, batches: Seq<Seq<StoredBlob>>) -> Map<i32, StoredBlob> {
    insert_rows(store, flatten(batches))
}

proof fn lemma_keys_stored(store: Map<i32, StoredBlob>, rows: Seq<StoredBlob>)
    ensures
        forall|i: int| 0 <= i < rows.len() ==> insert_rows(store, rows).contains_key(#[trigger] rows[i].key),
        forall|k: i32| store.contains_key(k) ==> #[trigger] insert_rows(store, rows).contains_key(k),
    decreases rows.len(),
{
    if rows.len() > 0 {
        let init = rows.drop_last();
        lemma_keys_stored(store, init);
        assert forall|i: int| 0 <= i < rows.len() implies insert_rows(store, rows).contains_key(#[trigger] rows[i].key) by {
            if i < rows.len() - 1 {
                assert(rows[i] == init[i]);
            }
        }
        assert forall|k: i32| store.contains_key(k) implies #[trigger] insert_rows(store, rows).contains_key(k) by {
            assert(insert_rows(store, init).contains_key(k));
        }
    }
}

proof fn lemma_stored_keys_unchanged(store: Map<i32, StoredBlob>, rows: Seq<StoredBlob>)
    requires
        forall|i: int| 0 <= i < rows.len() ==> store.contains_key(#[trigger] rows[i].key),
    ensures
        insert_rows(store, rows) == store,
    decreases rows.len(),
{
    if rows.len() > 0 {
        let init = rows.drop_last();
        assert forall|i: int| 0 <= i < init.len() implies store.contains_key(#[trigger] init[i].key) by {
            assert(init[i] == rows[i]);
        }
        lemma_stored_keys_unchanged(store, init);
        assert(store.contains_key(rows[rows.len() - 1].key));
    }
}

/// Ingestion is idempotent: storing the batches of a source a second time
/// leaves the store as the first run left it, since every key is already
/// stored and each insert does nothing on a stored key.
pub proof fn lemma_ingestion_idempotent(store: Map<i32, StoredBlob>, rows: Seq<StoredBlob>, b: nat)
    requires
        b > 0,
    ensures
        stored_after(stored_after(store, batches_of(rows, b)), batches_of(rows, b)) == stored_after(
            store,
            batches_of(rows, b),
        ),
{
    lemma_partial_batch_flushed(rows, b);
    let once = stored_after(store, batches_of(rows, b));
    lemma_keys_stored(store, rows);
    lemma_stored_keys_unchanged(once, rows);
}

/// A statement parameter.
#[derive(Debug, PartialEq)]
pub enum SqlParam {
    Int(i32),
    Bytes(Vec<u8>),
}

/// The model of a statement parameter.
pub enum SqlParamView {
    Int(i32),
    Bytes(Seq<u8>),
}

impl View for SqlParam {
    type V = SqlParamView;

    open spec fn view(&self) -> SqlParamView {
        match self {
            SqlParam::Int(i) => SqlParamView::Int(*i),
            SqlParam::Bytes(b) => SqlParamView::Bytes(b@),
        }
    }
}

/// A parameterized statement: its text and its parameters, `$1` first.
#[derive(Debug, PartialEq)]
pub struct InsertStatement {
    pub sql: String,
    pub params: Vec<SqlParam>,
}

/// The placeholders of the `i`-th row of values, counted from zero.
pub open spec fn row_placeholders(i: nat) -> Seq<char> {
    "($"@ + decimal(3 * i + 1) + ", $"@ + decimal(3 * i + 2) + ", $"@ + decimal(3 * i + 3) + ")"@
}

/// The placeholders of `n` rows of values, separated by commas.
pub open spec fn values_list(n: nat) -> Seq<char>
    decreases n,
{
    if n == 0 {
        seq![]
    } else if n == 1 {
        row_placeholders(0)
    } else {
        values_list((n - 1) as nat) + ", "@ + row_placeholders((n - 1) as nat)
    }
}

/// The bulk insert of `n` blobs, doing nothing for a key already stored.
pub open spec fn insert_sql(n: nat) -> Seq<char> {
    "INSERT INTO fbs_galleries (gallery_id, data, compress_type) VALUES "@ + values_list(n)
        + " ON CONFLICT (gallery_id) DO NOTHING"@
}

/// The parameters of a bulk insert: key, bytes and codec id of each blob.
pub open spec fn insert_params(rows: Seq<StoredBlob>) -> Seq<SqlParamView>
    decreases rows.len(),
{
    if rows.len() == 0 {
        seq![]
    } else {
        insert_params(rows.drop_last()) + seq![
            SqlParamView::Int(rows.last().key),
            SqlParamView::Bytes(rows.last().data),
            SqlParamView::Int(rows.last().codec),
        ]
    }
}

fn append_row_placeholders(sql: &mut String, i: usize)
    requires
        3 * i + 3 <= usize::MAX,
    ensures
        final(sql)@ == old(sql)@ + row_placeholders(i as nat),
{
    sql.append("($");
    push_decimal(sql, (3 * i + 1) as u64);
    sql.append(", $");
    push_decimal(sql, (3 * i + 2) as u64);
    sql.append(", $");
    push_decimal(sql, (3 * i + 3) as u64);
    sql.append(")");
    assert(sql@ =~= old(sql)@ + row_placeholders(i as nat));
}

fn push_row_params(params: &mut Vec<SqlParam>, row: &BlobRow)
    ensures
        views(final(params)@) == views(old(params)@) + seq![
            SqlParamView::Int(row.gallery_id),
            SqlParamView::Bytes(row.data@),
            SqlParamView::Int(row.compress_type),
        ],
{
    params.push(SqlParam::Int(row.gallery_id));
    params.push(SqlParam::Bytes(row.data.clone()));
    params.push(SqlParam::Int(row.compress_type));
    assert(views(params@) =~= views(old(params)@) + seq![
        SqlParamView::Int(row.gallery_id),
        SqlParamView::Bytes(row.data@),
        SqlParamView::Int(row.compress_type),
    ]);
}

/// The single statement that stores a batch: an insert of every blob that
/// does nothing on a key already stored. An empty batch needs no statement.
#[verifier::spinoff_prover]
#[verifier::rlimit(40)]
pub fn insert_statement(batch: &Vec<BlobRow>) -> (r: Option<InsertStatement>)
    requires
        3 * batch@.len() <= usize::MAX,
    ensures
        r is None <==> batch@.len() == 0,
        r matches Some(st) ==> st.sql@ == insert_sql(batch@.len()) && views(st.params@)
            == insert_params(views(batch@)),
{
    if batch.len() == 0 {
        return None;
    }
    let mut sql = String::from_str("INSERT INTO fbs_galleries (gallery_id, data, compress_type) VALUES ");
    let mut params: Vec<SqlParam> = Vec::new();
    let mut i: usize = 0;
    while i < batch.len()
        invariant
            3 * batch@.len() <= usize::MAX,
            i <= batch@.len(),
            sql@ == "INSERT INTO fbs_galleries (gallery_id, data, compress_type) VALUES "@ + values_list(i as nat),
            views(params@) == insert_params(views(batch@.take(i as int))),
        decreases batch@.len() - i,
    {
        if i > 0 {
            sql.append(", ");
        }
        append_row_placeholders(&mut sql, i);
        push_row_params(&mut params, &batch[i]);
        proof {
            let prefix = "INSERT INTO fbs_galleries (gallery_id, data, compress_type) VALUES "@;
            if i == 0 {
                assert(sql@ =~= prefix + values_list(1));
            } else {
                assert(sql@ =~= prefix + values_list((i + 1) as nat));
            }
            let t = views(batch@.take(i + 1));
            assert(t.drop_last() =~= views(batch@.take(i as int)));
            assert(t.last() == batch@[i as int]@);
        }
        i = i + 1;
    }
    assert(batch@.take(i as int) =~= batch@);
    sql.append(" ON CONFLICT (gallery_id) DO NOTHING");
    Some(InsertStatement { sql, params })
}

} // verus!
