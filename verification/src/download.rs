//! The download coordinator's decisions: batching under a concurrency cap,
//! the retry policy, per-download progress accounting, and the collection
//! of a batch's results in submission order with first-failure propagation.
//! The fetches themselves — sockets, awaits, sleeps — run in the
//! surrounding program, which feeds their outcomes back in.
use vstd::prelude::*;
use crate::error::CocoatlyError;

verus! {

/// One fetch to perform: a source URL and a destination path.
#[derive(Debug, Clone)]
pub struct DownloadTask {
    pub url: String,
    pub destination: String,
}

/// What one finished fetch achieved: the bytes written against the declared
/// total, which is 0 when the server declared none.
#[derive(Debug, Clone)]
pub struct DownloadResult {
    pub url: String,
    pub destination: String,
    pub size: u64,
    pub total_size: u64,
}

/// The concatenation of a list of batches.
pub open spec fn flatten_batches(bs: Seq<Seq<DownloadTask>>) -> Seq<DownloadTask>
    decreases bs.len(),
{
    if bs.len() == 0 {
        Seq::empty()
    } else {
        flatten_batches(bs.take(bs.len() - 1)) + bs.last()
    }
}

/// Partitions tasks, in order, into batches of at most `limit`; every batch
/// but the last is full, so batches run strictly one after another with at
/// most `limit` fetches in flight.
pub fn plan_batches(tasks: Vec<DownloadTask>, limit: usize) -> (r: Vec<Vec<DownloadTask>>)
    requires
        limit > 0,
    ensures
        flatten_batches(r@.map_values(|b: Vec<DownloadTask>| b@)) == tasks@,
        forall|i: int| 0 <= i < r@.len() ==> #[trigger] r@[i]@.len() <= limit,
        forall|i: int| 0 <= i < r@.len() - 1 ==> #[trigger] r@[i]@.len() == limit,
{
    let mut batches: Vec<Vec<DownloadTask>> = Vec::new();
    let mut rest = tasks;
    let mut current: Vec<DownloadTask> = Vec::new();
    let mut taken: usize = 0;
    loop
        invariant_except_break
            limit > 0,
            taken == current@.len() < limit,
            flatten_batches(batches@.map_values(|b: Vec<DownloadTask>| b@)) + current@ + rest@
                =~= tasks@,
            forall|i: int|
                0 <= i < batches@.len() ==> #[trigger] batches@[i]@.len() == limit,
        ensures
            flatten_batches(batches@.map_values(|b: Vec<DownloadTask>| b@)) =~= tasks@,
            forall|i: int| 0 <= i < batches@.len() ==> #[trigger] batches@[i]@.len() <= limit,
            forall|i: int|
                0 <= i < batches@.len() - 1 ==> #[trigger] batches@[i]@.len() == limit,
        decreases rest@.len(),
    {
        let ghost bviews = batches@.map_values(|b: Vec<DownloadTask>| b@);
        if rest.len() == 0 {
            if current.len() > 0 {
                let ghost cur = current@;
                batches.push(current);
                proof {
                    let nb = batches@.map_values(|b: Vec<DownloadTask>| b@);
                    assert(nb.take(nb.len() - 1) =~= bviews);
                    assert(nb.last() == cur);
                    assert(flatten_batches(nb) == flatten_batches(bviews) + cur);
                    assert(flatten_batches(bviews) + cur + Seq::<DownloadTask>::empty() =~= tasks@
                        ==> flatten_batches(nb) =~= tasks@);
                }
            } else {
                proof {
                    assert(flatten_batches(bviews) + Seq::<DownloadTask>::empty()
                        + Seq::<DownloadTask>::empty() =~= flatten_batches(bviews));
                }
            }
            break;
        }
        let task = rest.remove(0);
        let ghost pre_cur = current@;
        current.push(task);
        taken += 1;
        proof {
            assert(flatten_batches(bviews) + pre_cur.push(task) + rest@ =~= flatten_batches(
                bviews,
            ) + pre_cur + (seq![task] + rest@));
        }
        if taken == limit {
            let ghost cur = current@;
            batches.push(current);
            current = Vec::new();
            taken = 0;
            proof {
                let nb = batches@.map_values(|b: Vec<DownloadTask>| b@);
                assert(nb.take(nb.len() - 1) =~= bviews);
                assert(nb.last() == cur);
                assert(flatten_batches(nb) == flatten_batches(bviews) + cur);
                assert(flatten_batches(nb) + Seq::<DownloadTask>::empty() + rest@
                    =~= flatten_batches(bviews) + cur + rest@);
            }
        }
    }
    batches
}

/// The retry policy: a failed attempt is retried exactly while the attempt
/// count is below the configured maximum; on the final attempt the error
/// surfaces.
pub fn should_retry(attempts: u32, max_attempts: u32) -> (r: bool)
    ensures
        r == (attempts < max_attempts),
{
    attempts < max_attempts
}

/// The progress accounting of one fetch: response chunks arrive one at a
/// time and the achieved byte count grows by each chunk's length.
pub struct DownloadSession {
    pub url: String,
    pub destination: String,
    pub downloaded: u64,
    pub total_size: u64,
}

impl DownloadSession {
    /// Opens accounting for one fetch; a server that declares no length is
    /// recorded as total 0.
    pub fn start(url: String, destination: String, content_length: Option<u64>) -> (r: Self)
        ensures
            r.url == url,
            r.destination == destination,
            r.downloaded == 0,
            r.total_size == (match content_length {
                Option::Some(n) => n,
                Option::None => 0u64,
            }),
    {
        let total_size = match content_length {
            Some(n) => n,
            None => 0,
        };
        DownloadSession { url, destination, downloaded: 0, total_size }
    }

    /// Accounts one received chunk.
    pub fn on_chunk(&mut self, len: u64)
        requires
            old(self).downloaded + len <= u64::MAX,
        ensures
            final(self).downloaded == old(self).downloaded + len,
            final(self).url == old(self).url,
            final(self).destination == old(self).destination,
            final(self).total_size == old(self).total_size,
    {
        self.downloaded = self.downloaded + len;
    }

    /// Closes the accounting into a result.
    pub fn finish(self) -> (r: DownloadResult)
        ensures
            r.url == self.url,
            r.destination == self.destination,
            r.size == self.downloaded,
            r.total_size == self.total_size,
    {
        DownloadResult {
            url: self.url,
            destination: self.destination,
            size: self.downloaded,
            total_size: self.total_size,
        }
    }
}

/// Collects one batch's outcomes in submission order: all results when
/// every fetch succeeded, otherwise the first failure.
pub fn collect_batch(results: Vec<Result<DownloadResult, CocoatlyError>>) -> (r: Result<
    Vec<DownloadResult>,
    CocoatlyError,
>)
    ensures
        r is Ok <==> (forall|i: int| 0 <= i < results@.len() ==> #[trigger] results@[i] is Ok),
        r matches Ok(v) ==> v@.len() == results@.len() && (forall|i: int|
            0 <= i < results@.len() ==> (#[trigger] results@[i] matches Ok(d) && v@[i] == d)),
        r matches Err(e) ==> (exists|i: int|
            0 <= i < results@.len() && (#[trigger] results@[i] matches Err(e2) && e == e2) && (
            forall|j: int| 0 <= j < i ==> #[trigger] results@[j] is Ok)),
{
    let mut out: Vec<DownloadResult> = Vec::new();
    let mut rest = results;
    let total = rest.len();
    let mut i: usize = 0;
    let ghost all = rest@;
    while rest.len() > 0
        invariant
            all == results@,
            total == all.len(),
            i + rest@.len() == total,
            out@.len() == i,
            rest@ =~= all.skip(i as int),
            forall|j: int|
                0 <= j < i ==> (#[trigger] all[j] matches Ok(d) && out@[j] == d),
        decreases rest@.len(),
    {
        let item = rest.remove(0);
        proof {
            assert(all.skip(i as int)[0] == all[i as int]);
            assert(all.skip(i as int).drop_first() =~= all.skip(i + 1));
        }
        match item {
            Ok(d) => {
                out.push(d);
            },
            Err(e) => {
                proof {
                    assert(all[i as int] matches Err(e2) && e2 == e);
                }
                return Err(e);
            },
        }
        i += 1;
    }
    Ok(out)
}

} // verus!
