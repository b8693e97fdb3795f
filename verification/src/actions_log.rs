//! Queries over the action log: which entries a listing returns and where
//! the next page starts.
use vstd::prelude::*;

verus! {

/// What a log query reads of one entry: its sequence number, its action type
/// and its timestamp in milliseconds, where the timestamp reads as a number.
#[derive(Debug)]
pub struct LogEntryKey {
    pub seq: u64,
    pub action_type: String,
    pub timestamp_ms: Option<u128>,
}

/// The filters of a log query.
#[derive(Debug)]
pub struct LogQuery {
    pub from_seq: Option<u64>,
    pub action_type: Option<String>,
    pub since: Option<u128>,
    pub limit: Option<usize>,
}

/// The page size when none is asked for.
pub const DEFAULT_LOG_LIMIT: usize = 1000;

/// The page size of a query.
pub open spec fn page_size(q: LogQuery) -> int {
    match q.limit {
        Some(l) => l as int,
        None => DEFAULT_LOG_LIMIT as int,
    }
}

/// Whether an entry passes the query's filters: at or after `from_seq`, of
/// the asked action type, and stamped at or after `since` (an entry whose
/// timestamp does not read as a number fails a `since` filter).
pub open spec fn passes_query(e: LogEntryKey, q: LogQuery) -> bool {
    &&& (q.from_seq matches Some(f) ==> e.seq >= f)
    &&& (q.action_type matches Some(a) ==> e.action_type@ == a@)
    &&& (q.since matches Some(s) ==> (e.timestamp_ms matches Some(t) && t >= s))
}

/// The indices of the entries that pass, in log order.
pub open spec fn passing(entries: Seq<LogEntryKey>, q: LogQuery) -> Seq<usize>
    decreases entries.len(),
{
    if entries.len() == 0 {
        Seq::empty()
    } else {
        let prev = passing(entries.drop_last(), q);
        if passes_query(entries.last(), q) {
            prev.push((entries.len() - 1) as usize)
        } else {
            prev
        }
    }
}

proof fn lemma_passing_bounds(entries: Seq<LogEntryKey>, q: LogQuery)
    ensures
        passing(entries, q).len() <= entries.len(),
        forall|k: int| 0 <= k < passing(entries, q).len() ==> #[trigger] passing(entries, q)[k] < entries.len(),
    decreases entries.len(),
{
    if entries.len() > 0 {
        lemma_passing_bounds(entries.drop_last(), q);
    }
}

/// A page of the log: the indices of the first passing entries, at most the
/// page size of them, and, where more entries pass, the sequence number just
/// after the last one returned.
pub fn select_log_entries(entries: &Vec<LogEntryKey>, q: &LogQuery) -> (r: (Vec<usize>, Option<u64>))
    requires
        forall|i: int| 0 <= i < entries@.len() ==> (#[trigger] entries@[i]).seq < u64::MAX,
    ensures
        r.0@ == passing(entries@, *q).take(
            if passing(entries@, *q).len() <= page_size(*q) { passing(entries@, *q).len() as int } else { page_size(*q) },
        ),
        r.1 == (if passing(entries@, *q).len() > page_size(*q) && r.0@.len() > 0 {
            Some((entries@[r.0@.last() as int].seq + 1) as u64)
        } else {
            None::<u64>
        }),
{
    let max: usize = match q.limit {
        Some(l) => l,
        None => DEFAULT_LOG_LIMIT,
    };
    let mut out: Vec<usize> = Vec::new();
    let mut more = false;
    let mut i: usize = 0;
    while i < entries.len()
        invariant
            i <= entries@.len(),
            max == page_size(*q),
            out@ == passing(entries@.take(i as int), *q).take(
                if passing(entries@.take(i as int), *q).len() <= max { passing(entries@.take(i as int), *q).len() as int } else { max as int },
            ),
            more == (passing(entries@.take(i as int), *q).len() > max),
        decreases entries@.len() - i,
    {
        let e = &entries[i];
        let pass_from = match q.from_seq {
            Some(f) => e.seq >= f,
            None => true,
        };
        let pass_type = match &q.action_type {
            Some(a) => e.action_type == *a,
            None => true,
        };
        let pass_since = match q.since {
            Some(s) => match e.timestamp_ms {
                Some(t) => t >= s,
                None => false,
            },
            None => true,
        };
        proof {
            assert(entries@.take(i + 1).drop_last() =~= entries@.take(i as int));
            assert(entries@.take(i + 1).last() == entries@[i as int]);
        }
        if pass_from && pass_type && pass_since {
            if out.len() < max {
                out.push(i);
            } else {
                more = true;
            }
        }
        proof {
            let p0 = passing(entries@.take(i as int), *q);
            let p1 = passing(entries@.take(i + 1), *q);
            if pass_from && pass_type && pass_since {
                assert(p1 == p0.push(i));
                if p0.len() < max {
                    assert(out@ =~= p1.take(p1.len() as int));
                } else {
                    assert(p1.take(max as int) =~= p0.take(max as int));
                }
            } else {
                assert(p1 == p0);
            }
        }
        i += 1;
    }
    proof {
        assert(entries@.take(entries@.len() as int) =~= entries@);
        lemma_passing_bounds(entries@, *q);
    }
    let next = if more && out.len() > 0 {
        let last = out[out.len() - 1];
        proof {
            assert(out@[out@.len() - 1] == passing(entries@, *q)[out@.len() - 1]);
        }
        Some(entries[last].seq + 1)
    } else {
        None
    };
    (out, next)
}

} // verus!
