//! Exporting the records of a module to JSON, JSON Lines and CSV.
//!
//! An export runs in phases. For each filter value it first asks how many
//! records match (`count_query`, read back with `record_count`; a failed or
//! refused query is an error, as is one for a batch, `check_response`); it then
//! splits each count into batches (`plan_batches`) and fetches each batch
//! (`page_query`). Every record fetched goes through an [`ExportSink`], which
//! says what to append to each output file.

use crate::client::Vtiger;
use crate::text::{decimal, decimal_text, i32_text, int_text, lemma_count_text_round_trip, parse_i32, parse_i32_text};
use crate::types::{lookup, record_entries, record_get, ApiError, ExportFormat, FieldValue, Record, VtigerQueryResponse};
use vstd::prelude::*;

verus! {

/// The condition of an export's queries on a filter value: the column
/// starts with the value followed by a hyphen; no condition without a column.
pub open spec fn filter_condition(column: Option<Seq<char>>, filter: Seq<char>) -> Seq<char> {
    match column {
        Some(c) => " WHERE "@ + c + " LIKE '"@ + filter + "-%'"@,
        None => seq![],
    }
}

/// The query that counts the records of `module` that match `filter`.
pub open spec fn count_query_text(module: Seq<char>, column: Option<Seq<char>>, filter: Seq<char>) -> Seq<char> {
    "SELECT count(*) from "@ + module + filter_condition(column, filter) + ";"@
}

/// The query that fetches `batch` records of `module` that match `filter`,
/// from position `offset` on.
pub open spec fn page_query_text(
    module: Seq<char>,
    column: Option<Seq<char>>,
    filter: Seq<char>,
    offset: int,
    batch: nat,
) -> Seq<char> {
    "SELECT * FROM "@ + module + filter_condition(column, filter) + " LIMIT "@ + int_text(offset)
        + ", "@ + decimal(batch) + ";"@
}

/// Why an export stops before it is done.
#[derive(Debug)]
pub enum ExportError {
    /// A query request failed, or its answer could not be read
    RequestFailed,
    /// Vtiger refused a query (such as one on an unknown module or with bad
    /// syntax), with the error it gave, if any
    Rejected(Option<ApiError>),
}

/// Whether two optional API errors carry the same code and message.
pub open spec fn same_api_error(a: Option<ApiError>, b: Option<ApiError>) -> bool {
    match (a, b) {
        (None, None) => true,
        (Some(x), Some(y)) => x.code@ == y.code@ && x.message@ == y.message@,
        _ => false,
    }
}

/// Whether a query that got `response` (`None` for a request that failed)
/// succeeded.
pub open spec fn query_succeeded(response: Option<&VtigerQueryResponse>) -> bool {
    match response {
        Some(r) => r.success,
        None => false,
    }
}

/// Whether `outcome` reports the failure of a query that got `response`:
/// a failed request, or the error that Vtiger gave when it refused it.
pub open spec fn reports_failure<T>(
    response: Option<&VtigerQueryResponse>,
    outcome: Result<T, ExportError>,
) -> bool {
    match response {
        None => outcome matches Err(ExportError::RequestFailed),
        Some(r) => outcome matches Err(ExportError::Rejected(e)) && same_api_error(e, r.error),
    }
}

/// The count that the records of a count query's answer report: the `count`
/// field of the first record, read as an `i32`; 0 where there is no record,
/// the field is missing or not a string, or it does not parse.
pub open spec fn records_count(result: Option<Vec<Record>>) -> i32 {
    match result {
        None => 0,
        Some(records) => if records@.len() == 0 {
            0
        } else {
            match lookup(record_entries(records@[0]), "count"@) {
                Some(FieldValue::String(s)) => match parse_i32(s@) {
                    Some(n) => n,
                    None => 0,
                },
                _ => 0,
            }
        },
    }
}

fn copy_api_error(e: &Option<ApiError>) -> (c: Option<ApiError>)
    ensures
        same_api_error(c, *e),
{
    match e {
        Some(x) => Some(ApiError { code: x.code.clone(), message: x.message.clone() }),
        None => None,
    }
}

/// Whether a query succeeded: an error for a request that failed (`None`)
/// or for an answer in which Vtiger refused the query.
pub fn check_response(response: Option<&VtigerQueryResponse>) -> (r: Result<(), ExportError>)
    ensures
        query_succeeded(response) ==> r is Ok,
        !query_succeeded(response) ==> reports_failure(response, r),
{
    match response {
        None => Err(ExportError::RequestFailed),
        Some(x) => if x.success {
            Ok(())
        } else {
            Err(ExportError::Rejected(copy_api_error(&x.error)))
        },
    }
}

/// Reads the record count from the answer to a count query; `None` stands
/// for a request that failed. A failed or refused query is an error.
pub fn record_count(response: Option<&VtigerQueryResponse>) -> (r: Result<i32, ExportError>)
    ensures
        query_succeeded(response) ==> r == Ok::<i32, ExportError>(
            records_count(response->0.result),
        ),
        !query_succeeded(response) ==> reports_failure(response, r),
{
    match check_response(response) {
        Err(e) => Err(e),
        Ok(()) => match response {
            None => Err(ExportError::RequestFailed),
            Some(x) => match &x.result {
                None => Ok(0),
                Some(records) => {
                    if records.len() == 0 {
                        Ok(0)
                    } else {
                        match record_get(&records[0], "count") {
                            Some(FieldValue::String(s)) => match parse_i32_text(s.as_str()) {
                                Some(n) => Ok(n),
                                None => Ok(0),
                            },
                            _ => Ok(0),
                        }
                    }
                },
            },
        },
    }
}

/// The offsets of the batches of a filter with `count` records, from `from`
/// on: `from`, `from + batch`, `from + 2 * batch`, ... while below `count`.
pub open spec fn batch_offsets(count: int, batch: int, from: int) -> Seq<int>
    decreases (if from < count {
        count - from
    } else {
        0
    }),
{
    if from >= count || batch <= 0 {
        seq![]
    } else {
        seq![from] + batch_offsets(count, batch, from + batch)
    }
}

/// The batches of one filter: its offsets from 0, each with the batch size.
pub open spec fn filter_batches(filter: Seq<char>, count: int, batch: nat) -> Seq<(Seq<char>, int, nat)> {
    batch_offsets(count, batch as int, 0).map_values(|o: int| (filter, o, batch))
}

/// The batches of all filters, filter after filter, in the order given.
pub open spec fn batch_plan(counts: Seq<(Seq<char>, i32)>, batch: nat) -> Seq<(Seq<char>, int, nat)>
    decreases counts.len(),
{
    if counts.len() == 0 {
        seq![]
    } else {
        batch_plan(counts.drop_last(), batch) + filter_batches(
            counts.last().0,
            counts.last().1 as int,
            batch,
        )
    }
}

/// The characters of each filter of a list of counts.
pub open spec fn counts_view(counts: Seq<(String, i32)>) -> Seq<(Seq<char>, i32)> {
    counts.map_values(|c: (String, i32)| (c.0@, c.1))
}

/// The characters and numbers of each planned batch.
pub open spec fn work_view(items: Seq<(String, i32, usize)>) -> Seq<(Seq<char>, int, nat)> {
    items.map_values(|w: (String, i32, usize)| (w.0@, w.1 as int, w.2 as nat))
}

/// The characters of each string of a list.
pub open spec fn strings_view(s: Seq<String>) -> Seq<Seq<char>> {
    s.map_values(|x: String| x@)
}

/// The work of one export: what to export, how, and in which formats.
///
/// With a filter, the export covers, for each filter value, the records
/// whose column starts with the value and a hyphen. Without one, it covers
/// the whole module, as one filter value (empty) with no condition.
#[derive(Debug)]
pub struct ExportJob {
    module: String,
    column: Option<String>,
    filters: Vec<String>,
    batch_size: usize,
    concurrency: usize,
    formats: Vec<ExportFormat>,
}

impl Vtiger {
    /// Sets up the export of the records of `module`: with `query_filter`,
    /// those whose column starts with one of its values and a hyphen; without
    /// it, all of them. Records are fetched `batch_size` at a time with up to
    /// `concurrency` requests under way, and written in each of `format`.
    pub fn export(
        &self,
        module: &str,
        query_filter: Option<(&str, Vec<String>)>,
        batch_size: usize,
        concurrency: usize,
        format: Vec<ExportFormat>,
    ) -> (job: ExportJob)
        ensures
            job.module_view() == module@,
            match query_filter {
                Some((column, filters)) => job.column_view() == Some(column@) && job.filters_view()
                    == strings_view(filters@),
                None => job.column_view() is None && job.filters_view() == seq![
                    Seq::<char>::empty(),
                ],
            },
            job.batch_view() == batch_size,
            job.concurrency_view() == concurrency,
            job.formats_view() == format@,
    {
        let (column, filters) = match query_filter {
            Some((column, filters)) => (Some(column.to_owned()), filters),
            None => {
                let mut all = Vec::new();
                all.push(String::new());
                (None, all)
            },
        };
        proof {
            if query_filter is None {
                assert(strings_view(filters@) =~= seq![Seq::<char>::empty()]);
            }
        }
        ExportJob {
            module: module.to_owned(),
            column,
            filters,
            batch_size,
            concurrency,
            formats: format,
        }
    }
}

impl ExportJob {
    /// The module exported.
    pub closed spec fn module_view(self) -> Seq<char> {
        self.module@
    }

    /// The column that the filter values are matched against, if any.
    pub closed spec fn column_view(self) -> Option<Seq<char>> {
        match self.column {
            Some(c) => Some(c@),
            None => None,
        }
    }

    /// The filter values, in order.
    pub closed spec fn filters_view(self) -> Seq<Seq<char>> {
        strings_view(self.filters@)
    }

    /// The formats to write.
    pub closed spec fn formats_view(self) -> Seq<ExportFormat> {
        self.formats@
    }

    /// The number of records fetched per batch.
    pub closed spec fn batch_view(self) -> usize {
        self.batch_size
    }

    /// The number of requests that may be under way at once.
    pub closed spec fn concurrency_view(self) -> usize {
        self.concurrency
    }

    /// The number of records fetched per batch.
    pub fn batch_size(&self) -> (b: usize)
        ensures
            b == self.batch_view(),
    {
        self.batch_size
    }

    /// The number of requests that may be under way at once.
    pub fn concurrency(&self) -> (c: usize)
        ensures
            c == self.concurrency_view(),
    {
        self.concurrency
    }

    /// The filter values, in order.
    pub fn filters(&self) -> (f: &Vec<String>)
        ensures
            strings_view(f@) == self.filters_view(),
    {
        &self.filters
    }

    /// The formats to write.
    pub fn formats(&self) -> (f: &Vec<ExportFormat>)
        ensures
            f@ == self.formats_view(),
    {
        &self.formats
    }

    fn append_condition(&self, q: &mut String, filter: &str)
        ensures
            final(q)@ == old(q)@ + filter_condition(self.column_view(), filter@),
    {
        match &self.column {
            Some(c) => {
                q.append(" WHERE ");
                q.append(c.as_str());
                q.append(" LIKE '");
                q.append(filter);
                q.append("-%'");
            },
            None => {
                assert(filter_condition(self.column_view(), filter@) =~= Seq::<char>::empty());
            },
        }
    }

    /// The query that counts the records matching `filter`.
    pub fn count_query(&self, filter: &str) -> (q: String)
        ensures
            q@ == count_query_text(self.module_view(), self.column_view(), filter@),
    {
        let mut q = String::new();
        q.append("SELECT count(*) from ");
        q.append(self.module.as_str());
        self.append_condition(&mut q, filter);
        q.append(";");
        q
    }

    /// The query that fetches the batch of `batch` records matching `filter`
    /// from position `offset` on.
    pub fn page_query(&self, filter: &str, offset: i32, batch: usize) -> (q: String)
        ensures
            q@ == page_query_text(
                self.module_view(),
                self.column_view(),
                filter@,
                offset as int,
                batch as nat,
            ),
    {
        let mut q = String::new();
        q.append("SELECT * FROM ");
        q.append(self.module.as_str());
        self.append_condition(&mut q, filter);
        q.append(" LIMIT ");
        let o = i32_text(offset);
        q.append(o.as_str());
        q.append(", ");
        let b = decimal_text(batch as u64);
        q.append(b.as_str());
        q.append(";");
        q
    }

    /// Splits each filter's record count into batches of the job's batch
    /// size: offsets 0, `batch_size`, `2 * batch_size`, ... below the count,
    /// filter after filter in the order given. A batch size of 0 is refused
    /// where there is a count to split.
    pub fn plan_batches(&self, counts: &Vec<(String, i32)>) -> (items: Vec<(String, i32, usize)>)
        requires
            self.batch_view() > 0 || counts@.len() == 0,
        ensures
            work_view(items@) == batch_plan(counts_view(counts@), self.batch_view() as nat),
    {
        let b = self.batch_size;
        let ghost cv = counts_view(counts@);
        let mut items: Vec<(String, i32, usize)> = Vec::new();
        let mut i: usize = 0;
        while i < counts.len()
            invariant
                i <= counts@.len(),
                cv == counts_view(counts@),
                b == self.batch_size,
                b > 0 || counts@.len() == 0,
                work_view(items@) == batch_plan(cv.take(i as int), b as nat),
            decreases counts@.len() - i,
        {
            let count = counts[i].1;
            let ghost base = work_view(items@);
            let ghost f = cv[i as int].0;
            let ghost mut emitted: Seq<int> = seq![];
            let mut off: i64 = 0;
            while off < count as i64
                invariant
                    i < counts@.len(),
                    0 <= off,
                    off <= count || off == 0,
                    b > 0,
                    count == counts@[i as int].1,
                    f == counts@[i as int].0@,
                    emitted + batch_offsets(count as int, b as int, off as int) == batch_offsets(
                        count as int,
                        b as int,
                        0,
                    ),
                    work_view(items@) == base + emitted.map_values(|o: int| (f, o, b as nat)),
                decreases count - off,
            {
                let ghost prev = emitted;
                let name = counts[i].0.clone();
                let ghost before = items@;
                items.push((name, off as i32, b));
                assert(items@ == before.push((name, off as i32, b)));
                assert(work_view(items@) =~= work_view(before).push((f, off as int, b as nat)));
                proof {
                    emitted = emitted.push(off as int);
                    assert(batch_offsets(count as int, b as int, off as int) == seq![off as int]
                        + batch_offsets(count as int, b as int, off + b));
                    assert(emitted + batch_offsets(count as int, b as int, off + b) =~= prev
                        + batch_offsets(count as int, b as int, off as int));
                    assert(work_view(items@) =~= base + emitted.map_values(
                        |o: int| (f, o, b as nat),
                    ));
                }
                if (b as u64) >= ((count as i64 - off) as u64) {
                    proof {
                        assert(batch_offsets(count as int, b as int, off + b) =~= Seq::<int>::empty());
                        assert(batch_offsets(count as int, b as int, count as int) =~= Seq::<int>::empty());
                    }
                    off = count as i64;
                } else {
                    off = off + (b as i64);
                }
            }
            proof {
                assert(batch_offsets(count as int, b as int, off as int) =~= Seq::<int>::empty());
                assert(emitted =~= batch_offsets(count as int, b as int, 0));
                assert(cv.take(i + 1).drop_last() =~= cv.take(i as int));
                assert(cv.take(i + 1).last() == (f, count));
                assert(work_view(items@) =~= batch_plan(cv.take(i + 1), b as nat));
            }
            i = i + 1;
        }
        assert(cv.take(counts@.len() as int) =~= cv);
        items
    }
}

proof fn lemma_offsets_bounds(count: int, batch: int, from: int)
    requires
        batch > 0,
    ensures
        forall|k: int|
            0 <= k < batch_offsets(count, batch, from).len() ==> from <= #[trigger] batch_offsets(
                count,
                batch,
                from,
            )[k] < count,
    decreases (if from < count {
        count - from
    } else {
        0
    }),
{
    if from < count {
        lemma_offsets_bounds(count, batch, from + batch);
        let offs = batch_offsets(count, batch, from);
        let tail = batch_offsets(count, batch, from + batch);
        assert forall|k: int| 0 <= k < offs.len() implies from <= #[trigger] offs[k] < count by {
            if k > 0 {
                assert(offs[k] == tail[k - 1]);
            }
        }
    }
}

/// Every batch of a filter starts at or after 0 and below the filter's
/// count, and each record position below the count falls in exactly one
/// batch: the batches of a filter fetch each of its records once.
pub proof fn lemma_batches_cover(count: int, batch: int, from: int, r: int)
    requires
        batch > 0,
        from <= r < count,
    ensures
        forall|k: int|
            0 <= k < batch_offsets(count, batch, from).len() ==> from <= #[trigger] batch_offsets(
                count,
                batch,
                from,
            )[k] < count,
        exists|k: int|
            0 <= k < batch_offsets(count, batch, from).len() && #[trigger] batch_offsets(
                count,
                batch,
                from,
            )[k] <= r < batch_offsets(count, batch, from)[k] + batch,
        forall|k1: int, k2: int|
            0 <= k1 < batch_offsets(count, batch, from).len() && 0 <= k2 < batch_offsets(
                count,
                batch,
                from,
            ).len() && #[trigger] batch_offsets(count, batch, from)[k1] <= r < batch_offsets(
                count,
                batch,
                from,
            )[k1] + batch && #[trigger] batch_offsets(count, batch, from)[k2] <= r
                < batch_offsets(count, batch, from)[k2] + batch ==> k1 == k2,
    decreases count - from,
{
    let offs = batch_offsets(count, batch, from);
    let tail = batch_offsets(count, batch, from + batch);
    lemma_offsets_bounds(count, batch, from);
    lemma_offsets_bounds(count, batch, from + batch);
    assert(offs[0] == from);
    assert forall|k: int| 0 < k < offs.len() implies offs[k] == tail[k - 1] by {}
    if r < from + batch {
        assert(offs[0] <= r < offs[0] + batch);
        assert forall|k1: int, k2: int|
            0 <= k1 < offs.len() && 0 <= k2 < offs.len() && #[trigger] offs[k1] <= r < offs[k1]
                + batch && #[trigger] offs[k2] <= r < offs[k2] + batch implies k1 == k2 by {
            if k1 > 0 {
                assert(offs[k1] == tail[k1 - 1]);
            }
            if k2 > 0 {
                assert(offs[k2] == tail[k2 - 1]);
            }
        }
    } else {
        lemma_batches_cover(count, batch, from + batch, r);
        let k = choose|k: int| 0 <= k < tail.len() && #[trigger] tail[k] <= r < tail[k] + batch;
        assert(offs[k + 1] == tail[k]);
        assert forall|k1: int, k2: int|
            0 <= k1 < offs.len() && 0 <= k2 < offs.len() && #[trigger] offs[k1] <= r < offs[k1]
                + batch && #[trigger] offs[k2] <= r < offs[k2] + batch implies k1 == k2 by {
            assert(k1 > 0);
            assert(k2 > 0);
            assert(offs[k1] == tail[k1 - 1]);
            assert(offs[k2] == tail[k2 - 1]);
        }
    }
}

/// A successful count answer whose first record carries the count `n` as
/// its decimal text reports exactly `n`, for every `i32` `n`.
pub proof fn lemma_count_read_back(records: Vec<Record>, text: String, n: i32)
    requires
        records@.len() > 0,
        lookup(record_entries(records@[0]), "count"@) == Some(FieldValue::String(text)),
        text@ == int_text(n as int),
    ensures
        records_count(Some(records)) == n,
{
    lemma_count_text_round_trip(n);
}

/// The filter value stands verbatim in an export's queries: with a column
/// `c`, the count query is `SELECT count(*) from M WHERE c LIKE 'f-%';` and
/// the page query `SELECT * FROM M WHERE c LIKE 'f-%' LIMIT o, b;`, with
/// the same condition; without a column neither has a condition.
pub proof fn lemma_queries_hold_filter(
    module: Seq<char>,
    column: Seq<char>,
    filter: Seq<char>,
    offset: int,
    batch: nat,
)
    ensures
        count_query_text(module, Some(column), filter) == "SELECT count(*) from "@ + module
            + " WHERE "@ + column + " LIKE '"@ + filter + "-%'"@ + ";"@,
        page_query_text(module, Some(column), filter, offset, batch) == "SELECT * FROM "@ + module
            + " WHERE "@ + column + " LIKE '"@ + filter + "-%'"@ + " LIMIT "@ + int_text(offset)
            + ", "@ + decimal(batch) + ";"@,
        count_query_text(module, None, filter) == "SELECT count(*) from "@ + module + ";"@,
        page_query_text(module, None, filter, offset, batch) == "SELECT * FROM "@ + module
            + " LIMIT "@ + int_text(offset) + ", "@ + decimal(batch) + ";"@,
{
    assert(count_query_text(module, Some(column), filter) =~= "SELECT count(*) from "@ + module
        + " WHERE "@ + column + " LIKE '"@ + filter + "-%'"@ + ";"@);
    assert(page_query_text(module, Some(column), filter, offset, batch) =~= "SELECT * FROM "@
        + module + " WHERE "@ + column + " LIKE '"@ + filter + "-%'"@ + " LIMIT "@ + int_text(
        offset,
    ) + ", "@ + decimal(batch) + ";"@);
    assert(count_query_text(module, None, filter) =~= "SELECT count(*) from "@ + module + ";"@);
    assert(page_query_text(module, None, filter, offset, batch) =~= "SELECT * FROM "@ + module
        + " LIMIT "@ + int_text(offset) + ", "@ + decimal(batch) + ";"@);
}

/// Different filter values give different count queries: the query keeps
/// the whole value, so no two values are matched by the same pattern.
pub proof fn lemma_count_query_tells_filters_apart(
    module: Seq<char>,
    column: Seq<char>,
    f1: Seq<char>,
    f2: Seq<char>,
)
    requires
        count_query_text(module, Some(column), f1) == count_query_text(module, Some(column), f2),
    ensures
        f1 == f2,
{
    let a = "SELECT count(*) from "@ + module + " WHERE "@ + column + " LIKE '"@;
    let b = "-%'"@ + ";"@;
    let q1 = count_query_text(module, Some(column), f1);
    let q2 = count_query_text(module, Some(column), f2);
    assert(q1 =~= a + f1 + b);
    assert(q2 =~= a + f2 + b);
    assert(f1.len() == f2.len());
    assert forall|i: int| 0 <= i < f1.len() implies f1[i] == f2[i] by {
        assert(q1[a.len() + i] == f1[i]);
        assert(q2[a.len() + i] == f2[i]);
    }
    assert(f1 =~= f2);
}

} // verus!
