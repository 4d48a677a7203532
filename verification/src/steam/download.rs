//! Workshop downloads: parsing what the user typed, the state of each download and
//! the jobs that report back from Steam and from the copy step.
use std::sync::mpsc::Receiver;
use vstd::prelude::*;
use vstd::string::*;
use crate::text::{
    chars_of, decimal, parse_u64_range, parse_u64_spec, push_decimal, trim, trim_bounds,
};

verus! {

/// Whether `c` separates the parameters of a URL query.
pub open spec fn is_query_sep(c: char) -> bool {
    c == '?' || c == '&'
}

/// Length of the part of `s` before its first `?` or `&` (all of `s` if there is none).
pub open spec fn query_part_len(s: Seq<char>) -> int
    decreases s.len(),
{
    if s.len() == 0 {
        0
    } else if is_query_sep(s[0]) {
        0
    } else {
        1 + query_part_len(s.drop_first())
    }
}

/// Whether `s` starts with `id=`.
pub open spec fn starts_with_id_eq(s: Seq<char>) -> bool {
    s.len() >= 3 && s[0] == 'i' && s[1] == 'd' && s[2] == '='
}

/// The text after `id=` of the first part of `s`, split at `?` and `&`, that starts
/// with `id=`.
pub open spec fn first_id_param(s: Seq<char>) -> Option<Seq<char>>
    decreases s.len(),
{
    let n = query_part_len(s);
    proof {
        lemma_query_part_len_bounds(s);
    }
    if starts_with_id_eq(s.take(n)) {
        Some(s.take(n).skip(3))
    } else if n < s.len() {
        first_id_param(s.skip(n + 1))
    } else {
        None
    }
}

/// The workshop id in `input`: the whole trimmed input as a number, or else the value
/// of the first `id=` parameter of a URL.
pub open spec fn parse_id_spec(input: Seq<char>) -> Option<u64> {
    let t = trim(input);
    match parse_u64_spec(t) {
        Some(n) => Some(n),
        None => match first_id_param(t) {
            Some(p) => parse_u64_spec(p),
            None => None,
        },
    }
}

/// The first part of a query ends at a separator or at the end of the text.
pub proof fn lemma_query_part_len_bounds(s: Seq<char>)
    ensures
        0 <= query_part_len(s) <= s.len(),
        query_part_len(s) < s.len() ==> is_query_sep(s[query_part_len(s)]),
        forall|k: int| 0 <= k < query_part_len(s) ==> !is_query_sep(#[trigger] s[k]),
    decreases s.len(),
{
    if s.len() > 0 && !is_query_sep(s[0]) {
        lemma_query_part_len_bounds(s.drop_first());
        assert forall|k: int| 0 <= k < query_part_len(s) implies !is_query_sep(#[trigger] s[k]) by {
            if k > 0 {
                assert(s[k] == s.drop_first()[k - 1]);
            }
        }
    }
}

/// The first part of a query runs up to the first separator, or to the end of the text.
pub proof fn lemma_query_part_len_at(s: Seq<char>, m: int)
    requires
        0 <= m <= s.len(),
        forall|k: int| 0 <= k < m ==> !is_query_sep(#[trigger] s[k]),
        m == s.len() || is_query_sep(s[m]),
    ensures
        query_part_len(s) == m,
    decreases m,
{
    if m > 0 {
        let t = s.drop_first();
        assert forall|k: int| 0 <= k < m - 1 implies !is_query_sep(#[trigger] t[k]) by {
            assert(t[k] == s[k + 1]);
        }
        if m < s.len() {
            assert(t[m - 1] == s[m]);
        }
        lemma_query_part_len_at(t, m - 1);
    }
}

/// Index of the first `?` or `&` in `v[pos..end]`, or `end`.
fn find_query_sep(v: &Vec<char>, pos: usize, end: usize) -> (e: usize)
    requires
        pos <= end <= v.len(),
    ensures
        e == pos + query_part_len(v@.subrange(pos as int, end as int)),
{
    let mut e = pos;
    while e < end && v[e] != '?' && v[e] != '&'
        invariant
            pos <= e <= end <= v.len(),
            query_part_len(v@.subrange(pos as int, end as int)) == (e - pos) + query_part_len(
                v@.subrange(e as int, end as int),
            ),
        decreases end - e,
    {
        assert(v@.subrange(e as int, end as int).drop_first() =~= v@.subrange(e + 1, end as int));
        e = e + 1;
    }
    e
}

/// Reads a workshop id from a bare number or from a workshop URL such as
/// `https://steamcommunity.com/sharedfiles/filedetails/?id=123`.
pub fn parse_id(input: &str) -> (r: Option<u64>)
    ensures
        r == parse_id_spec(input@),
{
    let v = chars_of(input);
    let (a, b) = trim_bounds(&v, 0, v.len());
    assert(v@.subrange(0, v@.len() as int) =~= input@);
    let whole = parse_u64_range(&v, a, b);
    if whole.is_some() {
        return whole;
    }
    let ghost t = v@.subrange(a as int, b as int);
    let mut pos = a;
    loop
        invariant
            a <= pos <= b <= v.len(),
            t == v@.subrange(a as int, b as int),
            t == trim(input@),
            parse_u64_spec(t) is None,
            first_id_param(t) == first_id_param(v@.subrange(pos as int, b as int)),
        decreases b - pos,
    {
        let e = find_query_sep(&v, pos, b);
        let ghost s = v@.subrange(pos as int, b as int);
        proof {
            lemma_query_part_len_bounds(s);
        }
        assert(s.take(e - pos) =~= v@.subrange(pos as int, e as int));
        if e - pos >= 3 && v[pos] == 'i' && v[pos + 1] == 'd' && v[pos + 2] == '=' {
            assert(s.take(e - pos).skip(3) =~= v@.subrange(pos + 3, e as int));
            return parse_u64_range(&v, pos + 3, e);
        }
        if e >= b {
            return None;
        }
        assert(s.skip(e - pos + 1) =~= v@.subrange(e + 1, b as int));
        pos = e + 1;
    }
}


#[verifier::external_type_specification]
#[verifier::external_body]
#[verifier::reject_recursive_types(T)]
pub struct ExReceiver<T>(Receiver<T>);

/// Calls `std::sync::mpsc::Receiver::try_recv`, keeping a value that was waiting and
/// dropping the reason when none was. Nothing is claimed of the outcome: it depends on
/// what the sending side has done so far.
#[verifier::external_body]
fn try_take<T>(rx: &Receiver<T>) -> Option<T> {
    rx.try_recv().ok()
}

/// Whether `v` is a value that taking from the channel `rx` gave: it is what came out of
/// the channel, unchanged.
pub closed spec fn received<T>(rx: Receiver<T>, v: T) -> bool {
    call_ensures(try_take::<T>, (&rx,), Some(v))
}

/// Takes from `rx` with `take`, keeping the record that the value came from it.
fn take_with<T, F: Fn(&Receiver<T>) -> Option<T>>(take: F, rx: &Receiver<T>) -> (r: Option<T>)
    requires
        take.requires((rx,)),
    ensures
        call_ensures(take, (rx,), r),
{
    take(rx)
}

/// Where a workshop download stands.
#[derive(Debug)]
pub enum DownloadState {
    Queued,
    Pending,
    Downloading { downloaded: u64, total: u64 },
    Done { gma: String, unpacked: Option<String> },
    Error(String),
}

impl Clone for DownloadState {
    fn clone(&self) -> (r: Self)
        ensures
            r == *self,
    {
        match self {
            DownloadState::Queued => DownloadState::Queued,
            DownloadState::Pending => DownloadState::Pending,
            DownloadState::Downloading { downloaded, total } => DownloadState::Downloading {
                downloaded: *downloaded,
                total: *total,
            },
            DownloadState::Done { gma, unpacked } => DownloadState::Done {
                gma: gma.clone(),
                unpacked: match unpacked {
                    Some(u) => Some(u.clone()),
                    None => None,
                },
            },
            DownloadState::Error(e) => DownloadState::Error(e.clone()),
        }
    }
}

/// How Steam finished a download: installed into a folder, or failed with a message.
#[derive(Debug)]
pub enum FinishResult {
    Installed(String),
    Failed(String),
}

/// Waits for Steam to report that one download has finished.
pub struct DownloadFinishJob {
    rx: Option<Receiver<FinishResult>>,
    done: Option<FinishResult>,
}

/// Whether `v` is the outcome `job` holds, or, when it holds none, a value taken from its
/// channel.
pub open spec fn finish_got(job: DownloadFinishJob, v: FinishResult) -> bool {
    ||| job.outcome() == Some(v)
    ||| (job.outcome() is None && job.receiver() is Some && received(job.receiver().unwrap(), v))
}

impl DownloadFinishJob {
    /// The outcome received so far, if any.
    pub closed spec fn outcome(&self) -> Option<FinishResult> {
        self.done
    }

    /// The channel the outcome is awaited on, while the job has one.
    pub closed spec fn receiver(&self) -> Option<Receiver<FinishResult>> {
        self.rx
    }

    /// A job that waits for its outcome on `rx`.
    pub fn waiting(rx: Receiver<FinishResult>) -> (job: Self)
        ensures
            job.receiver() == Some(rx),
            job.outcome() is None,
    {
        DownloadFinishJob { rx: Some(rx), done: None }
    }

    /// A job for an item that is already installed in `folder`.
    pub fn already_done(folder: String) -> (job: Self)
        ensures
            job.outcome() == Some(FinishResult::Installed(folder)),
    {
        DownloadFinishJob { rx: None, done: Some(FinishResult::Installed(folder)) }
    }

    /// The outcome, once one has arrived; the first outcome to arrive is kept for good,
    /// exactly as it came out of the job's channel.
    pub fn poll(&mut self) -> (r: Option<&FinishResult>)
        ensures
            finish_polled(*old(self), *final(self)),
            match r {
                Some(x) => final(self).outcome() == Some(*x),
                None => final(self).outcome() is None,
            },
    {
        if self.done.is_none() {
            if let Some(rx) = &self.rx {
                if let Some(res) = take_with(try_take::<FinishResult>, rx) {
                    self.done = Some(res);
                }
            }
        }
        self.done.as_ref()
    }
}

/// What polling a finish job may turn `before` into, as `after`: the channel is kept, an
/// outcome already held is kept, and a new outcome is one taken from the channel.
pub open spec fn finish_polled(before: DownloadFinishJob, after: DownloadFinishJob) -> bool {
    &&& after.receiver() == before.receiver()
    &&& before.outcome() is Some ==> after.outcome() == before.outcome()
    &&& after.outcome() is Some ==> finish_got(before, after.outcome().unwrap())
}

/// Polling a finish job reports only what came out of its channel, unchanged (an install
/// folder stays that install folder), and never replaces an outcome it holds.
pub proof fn lemma_finish_poll_reports_received(before: DownloadFinishJob, after: DownloadFinishJob)
    requires
        finish_polled(before, after),
        after.outcome() is Some,
    ensures
        before.outcome() is None ==> before.receiver() is Some && received(
            before.receiver().unwrap(),
            after.outcome().unwrap(),
        ),
        before.outcome() is Some ==> after.outcome() == before.outcome(),
        after.receiver() == before.receiver(),
{
}

/// Resolves a workshop item into the items of its collection.
pub struct CollectionResolveJob {
    id: u64,
    rx: Receiver<Result<Vec<u64>, String>>,
    done: Option<Result<Vec<u64>, String>>,
}

/// Whether `v` is the outcome `job` holds, or, when it holds none, a value taken from its
/// channel.
pub open spec fn resolve_got(job: CollectionResolveJob, v: Result<Vec<u64>, String>) -> bool {
    ||| job.outcome() == Some(v)
    ||| (job.outcome() is None && received(job.receiver(), v))
}

impl CollectionResolveJob {
    /// The item being resolved.
    pub closed spec fn item(&self) -> u64 {
        self.id
    }

    /// The outcome received so far, if any.
    pub closed spec fn outcome(&self) -> Option<Result<Vec<u64>, String>> {
        self.done
    }

    /// The channel the outcome is awaited on.
    pub closed spec fn receiver(&self) -> Receiver<Result<Vec<u64>, String>> {
        self.rx
    }

    /// A job resolving item `id` whose outcome arrives on `rx`.
    pub fn waiting(id: u64, rx: Receiver<Result<Vec<u64>, String>>) -> (job: Self)
        ensures
            job.item() == id,
            job.receiver() == rx,
            job.outcome() is None,
    {
        CollectionResolveJob { id, rx, done: None }
    }

    /// The outcome received so far, giving up the job.
    pub fn into_outcome(self) -> (r: Option<Result<Vec<u64>, String>>)
        ensures
            r == self.outcome(),
    {
        self.done
    }

    /// The item being resolved.
    pub fn id(&self) -> (r: u64)
        ensures
            r == self.item(),
    {
        self.id
    }

    /// The outcome, once one has arrived; the first outcome to arrive is kept for good,
    /// exactly as it came out of the job's channel.
    pub fn poll(&mut self) -> (r: Option<&Result<Vec<u64>, String>>)
        ensures
            resolve_polled(*old(self), *final(self)),
            match r {
                Some(x) => final(self).outcome() == Some(*x),
                None => final(self).outcome() is None,
            },
    {
        if self.done.is_none() {
            if let Some(res) = take_with(try_take::<Result<Vec<u64>, String>>, &self.rx) {
                self.done = Some(res);
            }
        }
        self.done.as_ref()
    }
}

/// What polling a resolve job may turn `before` into, as `after`: the item and the channel
/// are kept, an outcome already held is kept, and a new outcome is one taken from the
/// channel.
pub open spec fn resolve_polled(before: CollectionResolveJob, after: CollectionResolveJob) -> bool {
    &&& after.item() == before.item()
    &&& after.receiver() == before.receiver()
    &&& before.outcome() is Some ==> after.outcome() == before.outcome()
    &&& after.outcome() is Some ==> resolve_got(before, after.outcome().unwrap())
}

/// Polling a resolve job reports only what came out of its channel, unchanged (a list of
/// children stays that list, an empty one included), and never replaces an outcome it
/// holds.
pub proof fn lemma_resolve_poll_reports_received(
    before: CollectionResolveJob,
    after: CollectionResolveJob,
)
    requires
        resolve_polled(before, after),
        after.outcome() is Some,
    ensures
        before.outcome() is None ==> received(before.receiver(), after.outcome().unwrap()),
        before.outcome() is Some ==> after.outcome() == before.outcome(),
        after.item() == before.item(),
{
}

/// Copies a finished download to the destination folder and unpacks it, elsewhere.
pub struct CopyUnpackJob {
    rx: Receiver<DownloadState>,
    done: Option<DownloadState>,
}

/// Whether `v` is the outcome `job` holds, or, when it holds none, a value taken from its
/// channel.
pub open spec fn copy_got(job: CopyUnpackJob, v: DownloadState) -> bool {
    ||| job.outcome() == Some(v)
    ||| (job.outcome() is None && received(job.receiver(), v))
}

impl CopyUnpackJob {
    /// The outcome received so far, if any.
    pub closed spec fn outcome(&self) -> Option<DownloadState> {
        self.done
    }

    /// The channel the outcome is awaited on.
    pub closed spec fn receiver(&self) -> Receiver<DownloadState> {
        self.rx
    }

    /// A job whose outcome arrives on `rx`.
    pub fn waiting(rx: Receiver<DownloadState>) -> (job: Self)
        ensures
            job.receiver() == rx,
            job.outcome() is None,
    {
        CopyUnpackJob { rx, done: None }
    }

    /// The outcome, once one has arrived; the first outcome to arrive is kept for good,
    /// exactly as it came out of the job's channel.
    pub fn poll(&mut self) -> (r: Option<&DownloadState>)
        ensures
            copy_polled(*old(self), *final(self)),
            match r {
                Some(x) => final(self).outcome() == Some(*x),
                None => final(self).outcome() is None,
            },
    {
        if self.done.is_none() {
            if let Some(s) = take_with(try_take::<DownloadState>, &self.rx) {
                self.done = Some(s);
            }
        }
        self.done.as_ref()
    }
}

/// What polling a copy job may turn `before` into, as `after`: the channel is kept, an
/// outcome already held is kept, and a new outcome is one taken from the channel.
pub open spec fn copy_polled(before: CopyUnpackJob, after: CopyUnpackJob) -> bool {
    &&& after.receiver() == before.receiver()
    &&& before.outcome() is Some ==> after.outcome() == before.outcome()
    &&& after.outcome() is Some ==> copy_got(before, after.outcome().unwrap())
}

/// Polling a copy job reports only the state that came out of its channel, unchanged (its
/// unpacked folder included), and never replaces an outcome it holds.
pub proof fn lemma_copy_poll_reports_received(before: CopyUnpackJob, after: CopyUnpackJob)
    requires
        copy_polled(before, after),
        after.outcome() is Some,
    ensures
        before.outcome() is None ==> received(before.receiver(), after.outcome().unwrap()),
        before.outcome() is Some ==> after.outcome() == before.outcome(),
{
}

/// What a progress check reports: nothing yet, or how far the download has come.
#[derive(Debug)]
pub enum PollResult {
    Pending,
    Downloading(DownloadState),
}

/// The progress to show for the download info Steam reports (bytes so far, bytes in
/// all): a download under way only while some but not all bytes are in.
pub open spec fn progress_spec(info: Option<(u64, u64)>) -> PollResult {
    match info {
        Some((downloaded, total)) => if total > 0 && downloaded < total {
            PollResult::Downloading(DownloadState::Downloading { downloaded, total })
        } else {
            PollResult::Pending
        },
        None => PollResult::Pending,
    }
}

/// The progress to show for the download info that Steam reports.
pub fn progress_from_info(info: Option<(u64, u64)>) -> (r: PollResult)
    ensures
        r == progress_spec(info),
{
    if let Some((downloaded, total)) = info {
        if total > 0 && downloaded < total {
            return PollResult::Downloading(DownloadState::Downloading { downloaded, total });
        }
    }
    PollResult::Pending
}

/// The finished state of an addon folder found on disk: its `.gma` when one was found
/// (else the folder itself), and its `unpacked` folder when that is a folder (else,
/// again, the folder itself).
pub open spec fn done_state_spec(
    addon_dir: String,
    gma: Option<String>,
    unpacked_dir: String,
    unpacked_is_dir: bool,
) -> DownloadState {
    DownloadState::Done {
        gma: match gma {
            Some(g) => g,
            None => addon_dir,
        },
        unpacked: Some(
            if unpacked_is_dir {
                unpacked_dir
            } else {
                addon_dir
            },
        ),
    }
}

/// The finished state of an addon folder found on disk.
pub fn done_state(
    addon_dir: String,
    gma: Option<String>,
    unpacked_dir: String,
    unpacked_is_dir: bool,
) -> (r: DownloadState)
    ensures
        r == done_state_spec(addon_dir, gma, unpacked_dir, unpacked_is_dir),
{
    let unpacked = if unpacked_is_dir {
        Some(unpacked_dir)
    } else {
        Some(addon_dir.clone())
    };
    let gma = match gma {
        Some(g) => g,
        None => addon_dir,
    };
    DownloadState::Done { gma, unpacked }
}


/// A folder found in the download folder, with what the scan reads of it.
pub struct ScannedEntry {
    /// The folder's name.
    pub name: String,
    /// Whether it is a folder at all.
    pub is_dir: bool,
    /// Whether it holds anything.
    pub has_entries: bool,
    /// When it was created, in nanoseconds from the UNIX epoch (the epoch when unknown).
    pub created: i128,
}

/// The addon id of a scanned entry: a non-empty folder whose name is a number.
pub open spec fn entry_id(e: ScannedEntry) -> Option<u64> {
    if e.is_dir && e.has_entries {
        parse_u64_spec(e.name@)
    } else {
        None
    }
}

/// The addon folders among `es`, as (id, creation time), in the order found.
pub open spec fn scan_candidates(es: Seq<ScannedEntry>) -> Seq<(u64, i128)>
    decreases es.len(),
{
    if es.len() == 0 {
        seq![]
    } else {
        let prev = scan_candidates(es.drop_last());
        match entry_id(es.last()) {
            Some(id) => prev.push((id, es.last().created)),
            None => prev,
        }
    }
}

/// Index of the first entry of `s` created before `t`, or `s.len()`.
pub open spec fn first_older(s: Seq<(u64, i128)>, t: i128) -> int
    decreases s.len(),
{
    if s.len() == 0 {
        0
    } else if s[0].1 < t {
        0
    } else {
        1 + first_older(s.drop_first(), t)
    }
}

/// `x` placed after every entry of `s` created no earlier than it.
pub open spec fn insert_newest(s: Seq<(u64, i128)>, x: (u64, i128)) -> Seq<(u64, i128)> {
    s.insert(first_older(s, x.1), x)
}

/// `c` ordered newest first; entries created at the same time keep their order.
pub open spec fn newest_first(c: Seq<(u64, i128)>) -> Seq<(u64, i128)>
    decreases c.len(),
{
    if c.len() == 0 {
        seq![]
    } else {
        insert_newest(newest_first(c.drop_last()), c.last())
    }
}

/// The ids of `s`, in order.
pub open spec fn ids_of(s: Seq<(u64, i128)>) -> Seq<u64> {
    s.map_values(|e: (u64, i128)| e.0)
}

/// Whether `s` runs from the newest entry to the oldest.
pub open spec fn is_newest_first(s: Seq<(u64, i128)>) -> bool {
    forall|i: int, j: int| 0 <= i < j < s.len() ==> s[i].1 >= s[j].1
}

proof fn lemma_first_older_bounds(s: Seq<(u64, i128)>, t: i128)
    ensures
        0 <= first_older(s, t) <= s.len(),
        forall|k: int| 0 <= k < first_older(s, t) ==> s[k].1 >= t,
        first_older(s, t) < s.len() ==> s[first_older(s, t)].1 < t,
    decreases s.len(),
{
    if s.len() > 0 && s[0].1 >= t {
        lemma_first_older_bounds(s.drop_first(), t);
        assert forall|k: int| 0 <= k < first_older(s, t) implies s[k].1 >= t by {
            if k > 0 {
                assert(s[k] == s.drop_first()[k - 1]);
            }
        }
    }
}

/// The scan order runs from the newest folder to the oldest.
pub proof fn lemma_newest_first_sorted(c: Seq<(u64, i128)>)
    ensures
        is_newest_first(newest_first(c)),
        newest_first(c).len() == c.len(),
    decreases c.len(),
{
    if c.len() > 0 {
        let prev = newest_first(c.drop_last());
        lemma_newest_first_sorted(c.drop_last());
        let x = c.last();
        let p = first_older(prev, x.1);
        lemma_first_older_bounds(prev, x.1);
        let o = prev.insert(p, x);
        assert forall|i: int, j: int| 0 <= i < j < o.len() implies o[i].1 >= o[j].1 by {
            if j < p {
            } else if j == p {
                assert(prev[i].1 >= x.1);
            } else if i < p {
                assert(o[j] == prev[j - 1]);
            } else if i == p {
                assert(o[j] == prev[j - 1]);
                if p < prev.len() {
                    assert(prev[p].1 < x.1);
                    assert(prev[p].1 >= prev[j - 1].1);
                }
            } else {
                assert(o[i] == prev[i - 1]);
                assert(o[j] == prev[j - 1]);
            }
        }
    }
}

/// The scan order holds exactly the folders found, each as often as it was found.
pub proof fn lemma_newest_first_permutes(c: Seq<(u64, i128)>)
    ensures
        newest_first(c).to_multiset() == c.to_multiset(),
    decreases c.len(),
{
    if c.len() > 0 {
        let prev = newest_first(c.drop_last());
        lemma_newest_first_permutes(c.drop_last());
        lemma_newest_first_sorted(c.drop_last());
        let x = c.last();
        lemma_first_older_bounds(prev, x.1);
        vstd::seq_lib::to_multiset_insert(prev, first_older(prev, x.1), x);
        vstd::seq_lib::to_multiset_build(c.drop_last(), x);
        assert(c.drop_last().push(x) =~= c);
    } else {
        assert(c =~= Seq::<(u64, i128)>::empty());
    }
}

/// The addon ids found in the download folder, newest folder first; folders created at
/// the same time keep the order in which they were listed.
pub fn scan_existing(entries: &Vec<ScannedEntry>) -> (r: Vec<u64>)
    ensures
        r@ == ids_of(newest_first(scan_candidates(entries@))),
{
    let mut o: Vec<(u64, i128)> = Vec::new();
    let mut i: usize = 0;
    assert(entries@.take(0) =~= Seq::<ScannedEntry>::empty());
    while i < entries.len()
        invariant
            i <= entries.len(),
            o@ == newest_first(scan_candidates(entries@.take(i as int))),
        decreases entries.len() - i,
    {
        let e = &entries[i];
        let ghost before = entries@.take(i as int);
        assert(entries@.take(i + 1).drop_last() =~= before);
        assert(entries@.take(i + 1).last() == *e);
        if e.is_dir && e.has_entries {
            let name = chars_of(e.name.as_str());
            assert(name@.subrange(0, name@.len() as int) =~= e.name@);
            match parse_u64_range(&name, 0, name.len()) {
                Some(id) => {
                    let created = e.created;
                    let ghost cand = scan_candidates(before);
                    assert(scan_candidates(entries@.take(i + 1)) == cand.push((id, created)));
                    assert(cand.push((id, created)).drop_last() =~= cand);
                    let mut j: usize = 0;
                    assert(o@.subrange(0, o@.len() as int) =~= o@);
                    while j < o.len() && o[j].1 >= created
                        invariant
                            j <= o.len(),
                            first_older(o@, created) == j + first_older(
                                o@.subrange(j as int, o@.len() as int),
                                created,
                            ),
                        decreases o.len() - j,
                    {
                        assert(o@.subrange(j as int, o@.len() as int).drop_first() =~= o@.subrange(
                            j + 1,
                            o@.len() as int,
                        ));
                        j = j + 1;
                    }
                    assert(first_older(o@, created) == j);
                    o.insert(j, (id, created));
                },
                None => {},
            }
        }
        i = i + 1;
    }
    assert(entries@.take(i as int) =~= entries@);
    let mut r: Vec<u64> = Vec::new();
    let mut k: usize = 0;
    while k < o.len()
        invariant
            k <= o.len(),
            r@ == ids_of(o@.take(k as int)),
        decreases o.len() - k,
    {
        r.push(o[k].0);
        assert(ids_of(o@.take(k + 1)) =~= ids_of(o@.take(k as int)).push(o@[k as int].0));
        k = k + 1;
    }
    assert(o@.take(k as int) =~= o@);
    r
}


/// Whether the first bytes of a file mark it as an addon archive: the `GMAD` magic, or
/// the `0x5D` that starts an LZMA-compressed one. Fewer than four bytes never do.
pub fn is_gma_header(head: &[u8]) -> (r: bool)
    ensures
        r == (head@.len() >= 4 && ((head@[0] == 0x47 && head@[1] == 0x4d && head@[2] == 0x41
            && head@[3] == 0x44) || head@[0] == 0x5d)),
{
    if head.len() < 4 {
        return false;
    }
    (head[0] == 0x47 && head[1] == 0x4d && head[2] == 0x41 && head[3] == 0x44) || head[0] == 0x5d
}

/// A directory entry looked at in the search for an addon archive.
pub struct FileHead {
    /// The entry's path.
    pub path: String,
    /// Whether it is a regular file.
    pub is_file: bool,
    /// Its first four bytes, as far as they could be read (empty when it could not be read).
    pub head: Vec<u8>,
}

/// Whether `e` is an addon archive: a file whose first bytes mark one.
pub open spec fn holds_gma(e: FileHead) -> bool {
    &&& e.is_file
    &&& e.head@.len() >= 4
    &&& ((e.head@[0] == 0x47 && e.head@[1] == 0x4d && e.head@[2] == 0x41 && e.head@[3] == 0x44)
        || e.head@[0] == 0x5d)
}

/// The first entry, in the order listed, that is an addon archive.
pub fn first_gma(entries: &Vec<FileHead>) -> (r: Option<String>)
    ensures
        match r {
            Some(p) => exists|i: int|
                0 <= i < entries.len() && holds_gma(#[trigger] entries@[i]) && p@ == entries@[i].path@
                    && forall|j: int| 0 <= j < i ==> !holds_gma(#[trigger] entries@[j]),
            None => forall|i: int| 0 <= i < entries.len() ==> !holds_gma(#[trigger] entries@[i]),
        },
{
    let mut i: usize = 0;
    while i < entries.len()
        invariant
            i <= entries.len(),
            forall|j: int| 0 <= j < i ==> !holds_gma(#[trigger] entries@[j]),
        decreases entries.len() - i,
    {
        let e = &entries[i];
        if e.is_file && is_gma_header(e.head.as_slice()) {
            assert(holds_gma(entries@[i as int]));
            return Some(e.path.clone());
        }
        i = i + 1;
    }
    None
}

/// One file of an addon archive: its path inside the addon and its bytes.
pub struct GmaEntry {
    pub name: String,
    pub content: Vec<u8>,
}

/// The (path, bytes) pairs of archive entries.
pub open spec fn gma_entries_view(v: Seq<GmaEntry>) -> Seq<(Seq<char>, Seq<u8>)> {
    v.map_values(|e: GmaEntry| (e.name@, e.content@))
}

/// What `gma_lite::read` makes of the bytes `bytes`: the entries, or the text of its error.
pub uninterp spec fn gma_read(bytes: Seq<u8>) -> Result<Seq<(Seq<char>, Seq<u8>)>, Seq<char>>;

/// What an LZMA stream `bytes` decodes to with `lzma_rust2` (no memory limit): the bytes,
/// or the display text of the error, with `true` when the stream could not even be opened
/// and `false` when decoding it failed.
pub uninterp spec fn lzma_decoded(bytes: Seq<u8>) -> Result<Seq<u8>, (bool, Seq<char>)>;

/// Calls `gma_lite::read` on the bytes and keeps each entry's name and content (its size
/// field repeats the content's length); an error becomes its display text. The contract
/// names the outcome `gma_read` of the bytes and says no more of it.
#[verifier::external_body]
fn read_gma(bytes: &[u8]) -> (r: Result<Vec<GmaEntry>, String>)
    ensures
        match r {
            Ok(v) => gma_read(bytes@) == Ok::<_, Seq<char>>(gma_entries_view(v@)),
            Err(e) => gma_read(bytes@) == Err::<Seq<(Seq<char>, Seq<u8>)>, _>(e@),
        },
{
    match gma_lite::read(bytes) {
        Ok(files) => Ok(
            files.into_iter().map(|f| GmaEntry { name: f.name, content: f.content }).collect(),
        ),
        Err(e) => Err(e.to_string()),
    }
}

/// How decoding an LZMA stream failed, with the display text of the error.
pub enum LzmaFailure {
    /// The stream could not be opened.
    Open(String),
    /// The stream could not be decoded.
    Decode(String),
}

/// Calls `lzma_rust2::LzmaReader::new_mem_limit` (no limit, no preset dictionary) on the
/// bytes and reads the reader to its end with `Read::read_to_end`; an error of either step
/// becomes its display text, marked with the step. The contract names the outcome
/// `lzma_decoded` of the bytes and says no more.
#[verifier::external_body]
fn lzma_decompress(bytes: Vec<u8>) -> (r: Result<Vec<u8>, LzmaFailure>)
    ensures
        match r {
            Ok(v) => lzma_decoded(bytes@) == Ok::<_, (bool, Seq<char>)>(v@),
            Err(LzmaFailure::Open(e)) => lzma_decoded(bytes@) == Err::<Seq<u8>, _>((true, e@)),
            Err(LzmaFailure::Decode(e)) => lzma_decoded(bytes@) == Err::<Seq<u8>, _>((false, e@)),
        },
{
    let cursor = std::io::Cursor::new(bytes);
    let mut reader = match lzma_rust2::LzmaReader::new_mem_limit(cursor, u32::MAX, None) {
        Ok(reader) => reader,
        Err(e) => return Err(LzmaFailure::Open(e.to_string())),
    };
    let mut out = Vec::new();
    match std::io::Read::read_to_end(&mut reader, &mut out) {
        Ok(_) => Ok(out),
        Err(e) => Err(LzmaFailure::Decode(e.to_string())),
    }
}

/// The archive bytes once an LZMA-compressed archive (first byte `0x5D`) is unpacked, or
/// the error to report, which names the step that failed.
pub open spec fn decompressed(bytes: Seq<u8>) -> Result<Seq<u8>, Seq<char>> {
    if bytes.len() > 0 && bytes[0] == 0x5d {
        match lzma_decoded(bytes) {
            Ok(v) => Ok(v),
            Err((true, e)) => Err("LZMA init failed: "@ + e),
            Err((false, e)) => Err("LZMA decompress failed: "@ + e),
        }
    } else {
        Ok(bytes)
    }
}

/// Unpacks an LZMA-compressed archive; other bytes pass through unchanged.
pub fn decompress_if_lzma(bytes: Vec<u8>) -> (r: Result<Vec<u8>, String>)
    ensures
        match r {
            Ok(v) => decompressed(bytes@) == Ok::<_, Seq<char>>(v@),
            Err(e) => decompressed(bytes@) == Err::<Seq<u8>, _>(e@),
        },
{
    if bytes.len() == 0 || bytes[0] != 0x5d {
        return Ok(bytes);
    }
    match lzma_decompress(bytes) {
        Ok(v) => Ok(v),
        Err(LzmaFailure::Open(e)) => {
            let mut msg = "LZMA init failed: ".to_owned();
            msg.append(e.as_str());
            Err(msg)
        },
        Err(LzmaFailure::Decode(e)) => {
            let mut msg = "LZMA decompress failed: ".to_owned();
            msg.append(e.as_str());
            Err(msg)
        },
    }
}

/// The entries of the archive `bytes` (compressed or not), or the error to report.
pub open spec fn decode_gma_spec(bytes: Seq<u8>) -> Result<Seq<(Seq<char>, Seq<u8>)>, Seq<char>> {
    match decompressed(bytes) {
        Err(e) => Err(e),
        Ok(raw) => match gma_read(raw) {
            Ok(entries) => Ok(entries),
            Err(e) => Err("Parse failed: "@ + e),
        },
    }
}

/// Reads the entries of an addon archive, compressed or not.
pub fn decode_gma(bytes: Vec<u8>) -> (r: Result<Vec<GmaEntry>, String>)
    ensures
        match r {
            Ok(v) => decode_gma_spec(bytes@) == Ok::<_, Seq<char>>(gma_entries_view(v@)),
            Err(e) => decode_gma_spec(bytes@) == Err::<Seq<(Seq<char>, Seq<u8>)>, _>(e@),
        },
{
    let raw = match decompress_if_lzma(bytes) {
        Ok(raw) => raw,
        Err(e) => return Err(e),
    };
    match read_gma(raw.as_slice()) {
        Ok(entries) => Ok(entries),
        Err(e) => {
            let mut msg = "Parse failed: ".to_owned();
            msg.append(e.as_str());
            Err(msg)
        },
    }
}


/// The Steam app id of Garry's Mod, whose workshop the tool works with.
pub const GMOD_APP_ID: u32 = 4000;

/// The message of a download that Steam reports finished without saying where it went.
pub open spec fn no_install_info_message() -> Seq<char> {
    "Download reported complete but no install info"@
}

/// What a finished-download event from Steam means for the job watching item `watched`:
/// nothing when the event is about another game or item; a failure with Steam's error
/// (`error`, its debug text) when there is one; else the install folder that
/// `install_folder` reports, or a failure when it reports none.
pub fn finish_result<FI: FnOnce() -> Option<String>>(
    app_id: u32,
    item: u64,
    watched: u64,
    error: Option<String>,
    install_folder: FI,
) -> (r: Option<FinishResult>)
    requires
        install_folder.requires(()),
    ensures
        (app_id != GMOD_APP_ID || item != watched) ==> r is None,
        (app_id == GMOD_APP_ID && item == watched) ==> match error {
            Some(e) => r matches Some(FinishResult::Failed(m)) && m@ == "Steam download error: "@
                + e@,
            None => exists|folder: Option<String>|
                call_ensures(install_folder, (), folder) && match folder {
                    Some(f) => r == Some(FinishResult::Installed(f)),
                    None => r matches Some(FinishResult::Failed(m)) && m@
                        == no_install_info_message(),
                },
        },
{
    if app_id != GMOD_APP_ID || item != watched {
        return None;
    }
    match error {
        Some(e) => {
            let mut m = "Steam download error: ".to_owned();
            m.append(e.as_str());
            Some(FinishResult::Failed(m))
        },
        None => match install_folder() {
            Some(f) => Some(FinishResult::Installed(f)),
            None => Some(
                FinishResult::Failed("Download reported complete but no install info".to_owned()),
            ),
        },
    }
}

/// What copying a finished download into the download folder found and did.
pub enum CopyReport {
    /// The install path Steam gave is missing or empty (the path).
    NothingToCopy(String),
    /// The install path is neither a file nor a folder any more (the path).
    SourceGone(String),
    /// Creating the addon folder or copying into it failed (the error text).
    CopyFailed(String),
    /// The files are in `addon_dir`; `archive` is the addon archive found there, if any,
    /// with what unpacking it gave: the folder unpacked into, or the error text.
    Copied { addon_dir: String, archive: Option<(String, Result<String, String>)> },
}

/// The state a download ends in after the copy step: an error with its message, or done
/// with the archive (the addon folder when there is none) and the unpacked folder (again
/// the addon folder when there is no archive).
pub fn copy_outcome(report: CopyReport) -> (r: DownloadState)
    ensures
        match report {
            CopyReport::NothingToCopy(p) => r matches DownloadState::Error(m) && m@
                == "Steam install path is empty or missing: "@ + p@,
            CopyReport::SourceGone(p) => r matches DownloadState::Error(m) && m@
                == "Steam install path doesn't exist: "@ + p@,
            CopyReport::CopyFailed(e) => r matches DownloadState::Error(m) && m@ == "Copy failed: "@
                + e@,
            CopyReport::Copied { addon_dir, archive } => match archive {
                None => r == (DownloadState::Done { gma: addon_dir, unpacked: Some(addon_dir) }),
                Some((gma, Ok(dir))) => r == (DownloadState::Done { gma, unpacked: Some(dir) }),
                Some((_, Err(e))) => r matches DownloadState::Error(m) && m@ == "Unpack failed: "@
                    + e@,
            },
        },
{
    match report {
        CopyReport::NothingToCopy(p) => {
            let mut m = "Steam install path is empty or missing: ".to_owned();
            m.append(p.as_str());
            DownloadState::Error(m)
        },
        CopyReport::SourceGone(p) => {
            let mut m = "Steam install path doesn't exist: ".to_owned();
            m.append(p.as_str());
            DownloadState::Error(m)
        },
        CopyReport::CopyFailed(e) => {
            let mut m = "Copy failed: ".to_owned();
            m.append(e.as_str());
            DownloadState::Error(m)
        },
        CopyReport::Copied { addon_dir, archive } => match archive {
            None => DownloadState::Done { gma: addon_dir.clone(), unpacked: Some(addon_dir) },
            Some((gma, Ok(dir))) => DownloadState::Done { gma, unpacked: Some(dir) },
            Some((_, Err(e))) => {
                let mut m = "Unpack failed: ".to_owned();
                m.append(e.as_str());
                DownloadState::Error(m)
            },
        },
    }
}

/// The name a single installed file is copied under: its own name, or `<id>.gma` when it
/// has none.
pub fn copied_file_name(name: Option<String>, id: u64) -> (r: String)
    ensures
        r@ == match name {
            Some(n) => n@,
            None => decimal(id as nat) + ".gma"@,
        },
{
    match name {
        Some(n) => n,
        None => {
            let mut r = String::new();
            push_decimal(&mut r, id);
            r.append(".gma");
            r
        },
    }
}

/// The message shown when Steam refuses to download an item.
pub open spec fn refused_message() -> Seq<char> {
    "Steam refused the download (item may not exist or isn't accessible)"@
}

/// What asking Steam for a download gives: `request_download` is asked, and when Steam
/// accepts, `start` gives the job that waits for the download; otherwise the refusal.
pub open spec fn asked_steam<FD: FnOnce() -> bool, FS: FnOnce() -> DownloadFinishJob>(
    request_download: FD,
    start: FS,
    r: Result<DownloadFinishJob, String>,
) -> bool {
    exists|accepted: bool|
        call_ensures(request_download, (), accepted) && if accepted {
            r matches Ok(job) && call_ensures(start, (), job)
        } else {
            r matches Err(e) && e@ == refused_message()
        }
}

/// Starts downloading an item. An item installed and up to date is done at once, in the
/// folder `install_folder` reports; otherwise a download is requested (`request_download`)
/// and, if Steam accepts it, `start` gives the job that waits for it to finish.
pub fn start_download<
    FI: FnOnce() -> Option<String>,
    FD: FnOnce() -> bool,
    FS: FnOnce() -> DownloadFinishJob,
>(installed: bool, needs_update: bool, install_folder: FI, request_download: FD, start: FS) -> (r:
    Result<DownloadFinishJob, String>)
    requires
        install_folder.requires(()),
        request_download.requires(()),
        start.requires(()),
    ensures
        installed && !needs_update ==> exists|folder: Option<String>|
            call_ensures(install_folder, (), folder) && match folder {
                Some(f) => r matches Ok(job) && job.outcome() == Some(FinishResult::Installed(f)),
                None => asked_steam(request_download, start, r),
            },
        !(installed && !needs_update) ==> asked_steam(request_download, start, r),
{
    if installed && !needs_update {
        match install_folder() {
            Some(folder) => {
                return Ok(DownloadFinishJob::already_done(folder));
            },
            None => {},
        }
    }
    if request_download() {
        Ok(start())
    } else {
        Err("Steam refused the download (item may not exist or isn't accessible)".to_owned())
    }
}

/// The items of a resolved workshop item: its children when it is a collection, none
/// otherwise (nor when a collection reports no children).
pub fn collection_children(is_collection: bool, children: Option<Vec<u64>>) -> (r: Vec<u64>)
    ensures
        r@ == (if is_collection {
            match children {
                Some(c) => c@,
                None => Seq::<u64>::empty(),
            }
        } else {
            Seq::<u64>::empty()
        }),
{
    if is_collection {
        match children {
            Some(c) => c,
            None => Vec::new(),
        }
    } else {
        Vec::new()
    }
}

} // verus!
