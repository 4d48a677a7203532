//! The download tab: a queue of workshop downloads, at most a few running at a time,
//! each moving from queued to finished or failed as its jobs report back.
use vstd::prelude::*;
use crate::steam::download::{
    copy_got, finish_got, resolve_got, first_id_param, is_query_sep, lemma_query_part_len_at, parse_id, parse_id_spec,
    starts_with_id_eq, CollectionResolveJob, CopyUnpackJob, DownloadFinishJob,
    DownloadState, FinishResult, PollResult,
};
use crate::text::{
    decimal, is_digit_spec, lemma_parse_decimal, lemma_trim_unchanged, parse_u64_spec,
    push_decimal,
};

verus! {

/// How many downloads may run at once.
pub const MAX_ACTIVE: usize = 3;

/// The variant of a download state, without its data.
#[derive(PartialEq, Eq, Structural, Clone, Copy, Debug)]
pub enum StateKind {
    Queued,
    Pending,
    Downloading,
    Done,
    Error,
}

/// The variant of `s`.
pub open spec fn kind_of(s: DownloadState) -> StateKind {
    match s {
        DownloadState::Queued => StateKind::Queued,
        DownloadState::Pending => StateKind::Pending,
        DownloadState::Downloading { .. } => StateKind::Downloading,
        DownloadState::Done { .. } => StateKind::Done,
        DownloadState::Error(_) => StateKind::Error,
    }
}

/// The variant of `s`.
pub fn kind(s: &DownloadState) -> (k: StateKind)
    ensures
        k == kind_of(*s),
{
    match s {
        DownloadState::Queued => StateKind::Queued,
        DownloadState::Pending => StateKind::Pending,
        DownloadState::Downloading { .. } => StateKind::Downloading,
        DownloadState::Done { .. } => StateKind::Done,
        DownloadState::Error(_) => StateKind::Error,
    }
}

/// One entry of the download list.
pub struct Download {
    /// The workshop item.
    pub id: u64,
    /// Where its download stands.
    pub state: DownloadState,
    /// The job waiting for Steam to finish the download, while there is one.
    pub finish_job: Option<DownloadFinishJob>,
    /// The job copying and unpacking the finished download, while there is one.
    pub copy_job: Option<CopyUnpackJob>,
    /// The variant of the state when the list was last laid out.
    pub state_disc: StateKind,
}

impl Download {
    /// A download of item `id` in state `state`, with no job running.
    pub fn new(id: u64, state: DownloadState) -> (d: Self)
        ensures
            d.id == id,
            d.state == state,
            d.finish_job is None,
            d.copy_job is None,
            d.state_disc == kind_of(state),
    {
        let state_disc = kind(&state);
        Download { id, state, finish_job: None, copy_job: None, state_disc }
    }
}

/// Whether `d` is a download of `found` with no job running.
pub open spec fn fresh_download(d: Download, found: (u64, DownloadState)) -> bool {
    &&& d.id == found.0
    &&& d.state == found.1
    &&& d.finish_job is None
    &&& d.copy_job is None
    &&& d.state_disc == kind_of(found.1)
}

/// The downloads found on disk, each as a download with no job running, in order.
pub fn scan_items(found: Vec<(u64, DownloadState)>) -> (r: Vec<Download>)
    ensures
        r.len() == found.len(),
        forall|i: int| 0 <= i < r.len() ==> fresh_download(#[trigger] r@[i], found@[i]),
{
    let ghost all = found@;
    let mut r: Vec<Download> = Vec::new();
    for entry in it: found.into_iter()
        invariant
            it.seq() == all,
            r.len() == it.index(),
            forall|i: int| 0 <= i < r.len() ==> fresh_download(#[trigger] r@[i], all[i]),
    {
        assert(entry == all[r.len() as int]);
        let (id, state) = entry;
        r.push(Download::new(id, state));
    }
    r
}


/// The (id, state) pairs of a download list.
pub open spec fn entries_of(ds: Seq<Download>) -> Seq<(u64, DownloadState)> {
    ds.map_values(|d: Download| (d.id, d.state))
}

/// Whether some entry of `e` is for item `id`.
pub open spec fn has_id(e: Seq<(u64, DownloadState)>, id: u64) -> bool {
    exists|i: int| 0 <= i < e.len() && (#[trigger] e[i]).0 == id
}

/// The list after queueing item `id`: unchanged when the item is listed already, else
/// with the item queued in front.
pub open spec fn queue_one_spec(e: Seq<(u64, DownloadState)>, id: u64) -> Seq<
    (u64, DownloadState),
> {
    if has_id(e, id) {
        e
    } else {
        seq![(id, DownloadState::Queued)] + e
    }
}

/// The list after queueing each of `ids` in turn.
pub open spec fn queue_all(e: Seq<(u64, DownloadState)>, ids: Seq<u64>) -> Seq<
    (u64, DownloadState),
>
    decreases ids.len(),
{
    if ids.len() == 0 {
        e
    } else {
        queue_all(queue_one_spec(e, ids[0]), ids.drop_first())
    }
}

/// Queueing a list of items then one more is queueing the longer list.
pub proof fn lemma_queue_all_push(e: Seq<(u64, DownloadState)>, ids: Seq<u64>, id: u64)
    ensures
        queue_all(e, ids.push(id)) == queue_one_spec(queue_all(e, ids), id),
    decreases ids.len(),
{
    let q = queue_one_spec(e, ids.push(id)[0]);
    if ids.len() == 0 {
        assert(ids.push(id).drop_first() =~= Seq::<u64>::empty());
        assert(ids.push(id)[0] == id);
        assert(queue_all(q, ids.push(id).drop_first()) == q);
        assert(queue_all(e, ids) == e);
    } else {
        assert(ids.push(id)[0] == ids[0]);
        lemma_queue_all_push(q, ids.drop_first(), id);
        assert(ids.push(id).drop_first() =~= ids.drop_first().push(id));
        assert(queue_all(e, ids) == queue_all(q, ids.drop_first()));
    }
    assert(queue_all(e, ids.push(id)) == queue_all(q, ids.push(id).drop_first()));
}

/// Whether no two entries of `e` are for the same item.
pub open spec fn ids_unique(e: Seq<(u64, DownloadState)>) -> bool {
    forall|i: int, j: int| 0 <= i < j < e.len() ==> e[i].0 != e[j].0
}

/// Queueing never lists an item twice.
pub proof fn lemma_queue_one_keeps_ids_unique(e: Seq<(u64, DownloadState)>, id: u64)
    requires
        ids_unique(e),
    ensures
        ids_unique(queue_one_spec(e, id)),
        has_id(queue_one_spec(e, id), id),
{
    let q = queue_one_spec(e, id);
    if !has_id(e, id) {
        assert forall|i: int, j: int| 0 <= i < j < q.len() implies q[i].0 != q[j].0 by {
            if i == 0 {
                assert(q[j] == e[j - 1]);
            } else {
                assert(q[i] == e[i - 1]);
                assert(q[j] == e[j - 1]);
            }
        }
        assert(q[0].0 == id);
    }
}

/// Queueing any list of items never lists an item twice.
pub proof fn lemma_queue_all_keeps_ids_unique(e: Seq<(u64, DownloadState)>, ids: Seq<u64>)
    requires
        ids_unique(e),
    ensures
        ids_unique(queue_all(e, ids)),
    decreases ids.len(),
{
    if ids.len() > 0 {
        lemma_queue_one_keeps_ids_unique(e, ids[0]);
        lemma_queue_all_keeps_ids_unique(queue_one_spec(e, ids[0]), ids.drop_first());
    }
}

/// The state of the download tab.
pub struct DownloadPanel {
    input: String,
    dest_input: String,
    dest_path: String,
    downloads: Vec<Download>,
    error: Option<String>,
    pending_collection: Option<CollectionResolveJob>,
}

impl DownloadPanel {
    /// The text typed into the id field.
    pub closed spec fn input_spec(&self) -> Seq<char> {
        self.input@
    }

    /// The text of the destination field.
    pub closed spec fn dest_input_spec(&self) -> Seq<char> {
        self.dest_input@
    }

    /// The destination folder.
    pub closed spec fn dest_path_spec(&self) -> Seq<char> {
        self.dest_path@
    }

    /// The destination folder, as the value handed to the copy jobs.
    pub closed spec fn dest_path_value(&self) -> String {
        self.dest_path
    }

    /// The download list.
    pub closed spec fn downloads_spec(&self) -> Seq<Download> {
        self.downloads@
    }

    /// The (id, state) pairs of the download list.
    pub open spec fn entries(&self) -> Seq<(u64, DownloadState)> {
        entries_of(self.downloads_spec())
    }

    /// The error shown under the id field.
    pub closed spec fn error_spec(&self) -> Option<String> {
        self.error
    }

    /// The collection being resolved, if any.
    pub closed spec fn pending_spec(&self) -> Option<CollectionResolveJob> {
        self.pending_collection
    }

    /// A tab saving to `dest_path`, listing the downloads found there.
    pub fn new(dest_path: String, downloads: Vec<Download>) -> (p: Self)
        ensures
            p.input_spec() == Seq::<char>::empty(),
            p.dest_input_spec() == dest_path@,
            p.dest_path_spec() == dest_path@,
            p.downloads_spec() == downloads@,
            p.error_spec() is None,
            p.pending_spec() is None,
    {
        DownloadPanel {
            dest_input: dest_path.clone(),
            dest_path,
            input: String::new(),
            downloads,
            error: None,
            pending_collection: None,
        }
    }

    /// The destination folder.
    pub fn dest_path(&self) -> (r: &String)
        ensures
            r@ == self.dest_path_spec(),
    {
        &self.dest_path
    }

    /// Queues item `id` in front of the list unless it is listed already; says whether it
    /// was queued.
    pub fn queue_one(&mut self, id: u64) -> (queued: bool)
        ensures
            final(self).entries() == queue_one_spec(old(self).entries(), id),
            queued == !has_id(old(self).entries(), id),
            queued ==> final(self).downloads_spec() == seq![Download::new_spec(id)] + old(self).downloads_spec(),
            !queued ==> final(self).downloads_spec() == old(self).downloads_spec(),
            final(self).input_spec() == old(self).input_spec(),
            final(self).dest_input_spec() == old(self).dest_input_spec(),
            final(self).dest_path_spec() == old(self).dest_path_spec(),
            final(self).error_spec() == old(self).error_spec(),
            final(self).pending_spec() == old(self).pending_spec(),
    {
        let ghost e = self.entries();
        let mut i: usize = 0;
        while i < self.downloads.len()
            invariant
                i <= self.downloads.len(),
                e == entries_of(self.downloads@),
                forall|k: int| 0 <= k < i ==> (#[trigger] self.downloads@[k]).id != id,
            decreases self.downloads.len() - i,
        {
            if self.downloads[i].id == id {
                assert(e[i as int].0 == id);
                return false;
            }
            i = i + 1;
        }
        assert(!has_id(e, id)) by {
            assert forall|k: int| 0 <= k < e.len() implies (#[trigger] e[k]).0 != id by {
                assert(e[k].0 == self.downloads@[k].id);
            }
        }
        let d = Download::new(id, DownloadState::Queued);
        self.downloads.insert(0, d);
        assert(entries_of(self.downloads@) =~= seq![(id, DownloadState::Queued)] + e);
        true
    }
}

/// Whether panel `b` has the id field, destination, error and pending collection of `a`.
pub open spec fn same_besides_list(a: DownloadPanel, b: DownloadPanel) -> bool {
    &&& b.input_spec() == a.input_spec()
    &&& b.dest_input_spec() == a.dest_input_spec()
    &&& b.dest_path_spec() == a.dest_path_spec()
    &&& b.error_spec() == a.error_spec()
    &&& b.pending_spec() == a.pending_spec()
}

/// What checking on the collection being resolved may turn panel `a` into, as `b`, saying
/// `waiting` while it is still being resolved. Without a collection nothing changes; one
/// with no outcome yet stays; one with an outcome (for certain the one already received)
/// is dropped and applied to the list and the error.
pub open spec fn collection_polled(a: DownloadPanel, b: DownloadPanel, waiting: bool) -> bool {
    &&& b.input_spec() == a.input_spec()
    &&& b.dest_input_spec() == a.dest_input_spec()
    &&& b.dest_path_spec() == a.dest_path_spec()
    &&& a.pending_spec() is None ==> {
        &&& !waiting
        &&& b.downloads_spec() == a.downloads_spec()
        &&& b.error_spec() == a.error_spec()
        &&& b.pending_spec() is None
    }
    &&& a.pending_spec() is Some && waiting ==> {
        &&& b.pending_spec() is Some
        &&& b.pending_spec().unwrap().item() == a.pending_spec().unwrap().item()
        &&& b.pending_spec().unwrap().outcome() is None
        &&& b.pending_spec().unwrap().receiver() == a.pending_spec().unwrap().receiver()
        &&& b.downloads_spec() == a.downloads_spec()
        &&& b.error_spec() == a.error_spec()
    }
    &&& a.pending_spec() is Some && !waiting ==> b.pending_spec() is None
    &&& a.pending_spec() is Some && !waiting ==> exists|res: Result<Vec<u64>, String>|
        resolve_got(a.pending_spec().unwrap(), res) && #[trigger] collection_applied(
            a.entries(),
            a.error_spec(),
            a.pending_spec().unwrap().item(),
            res,
            b.entries(),
            b.error_spec(),
        )
    &&& a.pending_spec() is Some && a.pending_spec().unwrap().outcome() is Some ==> !waiting
        && collection_applied(
        a.entries(),
        a.error_spec(),
        a.pending_spec().unwrap().item(),
        a.pending_spec().unwrap().outcome().unwrap(),
        b.entries(),
        b.error_spec(),
    )
}

/// What submitting the id field may turn panel `a` into, as `b`: a workshop id starts
/// resolving it as a collection (with `start`) and clears the field; anything else is
/// reported as the error.
pub open spec fn submitted<F: FnOnce(u64) -> CollectionResolveJob>(
    a: DownloadPanel,
    b: DownloadPanel,
    start: F,
) -> bool {
    &&& b.downloads_spec() == a.downloads_spec()
    &&& b.dest_input_spec() == a.dest_input_spec()
    &&& b.dest_path_spec() == a.dest_path_spec()
    &&& match parse_id_spec(a.input_spec()) {
        None => {
            &&& b.error_spec() is Some
            &&& b.error_spec().unwrap()@ == no_id_message()
            &&& b.pending_spec() == a.pending_spec()
            &&& b.input_spec() == a.input_spec()
        },
        Some(id) => {
            &&& b.error_spec() is None
            &&& b.pending_spec() is Some
            &&& call_ensures(start, (id,), b.pending_spec().unwrap())
            &&& b.input_spec() == Seq::<char>::empty()
        },
    }
}

/// What checking on every job may turn panel `a` into, as `b`: each entry as
/// `advance_entry_ok` allows, with `repaint` saying whether any job was running.
pub open spec fn jobs_advanced<
    FC: Fn(String, u64, String) -> CopyUnpackJob,
    FP: Fn(u64) -> PollResult,
>(a: DownloadPanel, b: DownloadPanel, start_copy: FC, poll_progress: FP, repaint: bool) -> bool {
    &&& b.downloads_spec().len() == a.downloads_spec().len()
    &&& forall|i: int|
        0 <= i < a.downloads_spec().len() ==> #[trigger] advance_entry_ok(
            start_copy,
            poll_progress,
            a.dest_path_value(),
            a.downloads_spec()[i],
            b.downloads_spec()[i],
        )
    &&& repaint == exists|i: int|
        0 <= i < a.downloads_spec().len() && #[trigger] in_flight(a.downloads_spec()[i])
    &&& same_besides_list(a, b)
}

/// What starting queued downloads with `start` may turn panel `a` into, as `b`.
pub open spec fn queue_pumped<F: Fn(u64) -> Result<DownloadFinishJob, String>>(
    a: DownloadPanel,
    b: DownloadPanel,
    start: F,
) -> bool {
    &&& pumped(start, a.downloads_spec(), b.downloads_spec())
    &&& same_besides_list(a, b)
}

/// Panel `b` is panel `a` with the variant of every state recorded as laid out; `changed`
/// says whether any had changed.
pub open spec fn laid_out(a: DownloadPanel, b: DownloadPanel, changed: bool) -> bool {
    &&& b.downloads_spec().len() == a.downloads_spec().len()
    &&& forall|i: int|
        0 <= i < a.downloads_spec().len() ==> {
            let o = a.downloads_spec()[i];
            let n = #[trigger] b.downloads_spec()[i];
            n == Download { state_disc: kind_of(o.state), ..o }
        }
    &&& changed == exists|i: int|
        0 <= i < a.downloads_spec().len() && (#[trigger] a.downloads_spec()[i]).state_disc
            != kind_of(a.downloads_spec()[i].state)
    &&& same_besides_list(a, b)
}

/// What a resolved collection does to the list and the error: its root item and then
/// its children, last child first, are queued; a failure is shown as the error instead.
pub open spec fn collection_applied(
    e0: Seq<(u64, DownloadState)>,
    err0: Option<String>,
    root: u64,
    res: Result<Vec<u64>, String>,
    e1: Seq<(u64, DownloadState)>,
    err1: Option<String>,
) -> bool {
    match res {
        Ok(kids) => e1 == queue_all(e0, seq![root] + kids@.reverse()) && err1 == err0,
        Err(msg) => e1 == e0 && err1 == Some(msg),
    }
}

impl DownloadPanel {
    /// Checks on the collection being resolved. Once it is resolved its items are queued
    /// (or its error shown) and it is dropped; says whether it is still being resolved.
    pub fn poll_collection(&mut self) -> (waiting: bool)
        ensures
            collection_polled(*old(self), *final(self), waiting),
    {
        let mut job = match self.pending_collection.take() {
            Some(j) => j,
            None => return false,
        };
        let root = job.id();
        let ready = job.poll().is_some();
        if !ready {
            self.pending_collection = Some(job);
            return true;
        }
        let ghost e0 = self.entries();
        let ghost err0 = self.error;
        let ghost res = job.outcome().unwrap();
        match job.into_outcome() {
            Some(Ok(kids)) => {
                self.queue_one(root);
                let ghost rev = kids@.reverse();
                let ghost first: Seq<u64> = seq![root];
                assert(queue_all(e0, first) == queue_one_spec(e0, root)) by {
                    assert(first.drop_first() =~= Seq::<u64>::empty());
                    assert(queue_all(queue_one_spec(e0, root), first.drop_first()) == queue_one_spec(
                        e0,
                        root,
                    ));
                }
                assert(first + rev.take(0) =~= first);
                let mut k = kids.len();
                while k > 0
                    invariant
                        k <= kids.len(),
                        rev == kids@.reverse(),
                        first == seq![root],
                        self.entries() == queue_all(e0, first + rev.take(kids.len() - k)),
                        self.error == err0,
                        self.input@ == old(self).input@,
                        self.dest_input@ == old(self).dest_input@,
                        self.dest_path@ == old(self).dest_path@,
                        self.pending_collection is None,
                    decreases k,
                {
                    k = k - 1;
                    let kid = kids[k];
                    let ghost done = first + rev.take(kids.len() - k - 1);
                    assert(rev[kids.len() - k - 1] == kid);
                    assert(first + rev.take(kids.len() - k) =~= done.push(kid));
                    proof {
                        lemma_queue_all_push(e0, done, kid);
                    }
                    self.queue_one(kid);
                }
                assert(rev.take(kids.len() as int) =~= rev);
                assert(collection_applied(e0, err0, root, Ok(kids), self.entries(), self.error));
            },
            Some(Err(msg)) => {
                self.error = Some(msg);
                assert(collection_applied(e0, err0, root, Err(msg), self.entries(), self.error));
            },
            None => {
                assert(false);
            },
        }
        assert(collection_applied(e0, err0, root, res, self.entries(), self.error));
        assert(collection_applied(
            old(self).entries(),
            old(self).error_spec(),
            old(self).pending_spec().unwrap().item(),
            res,
            self.entries(),
            self.error_spec(),
        ));
        false
    }
}

/// Whether a download in state `s` is running.
pub open spec fn is_active(s: DownloadState) -> bool {
    s is Pending || s is Downloading
}

/// How many downloads of `ds` are running.
pub open spec fn active_count(ds: Seq<Download>) -> int
    decreases ds.len(),
{
    if ds.len() == 0 {
        0
    } else {
        active_count(ds.drop_last()) + if is_active(ds.last().state) {
            1int
        } else {
            0int
        }
    }
}

/// How many more downloads may start when `ds` are listed.
pub open spec fn free_slots(ds: Seq<Download>) -> int {
    if active_count(ds) < MAX_ACTIVE {
        MAX_ACTIVE - active_count(ds)
    } else {
        0
    }
}

/// Whether entry `i` went from queued to started.
pub open spec fn newly_started(old: Seq<Download>, new: Seq<Download>, i: int) -> bool {
    old[i].state is Queued && new[i].state is Pending
}

/// How many of the entries before `i` went from queued to started.
pub open spec fn started_before(old: Seq<Download>, new: Seq<Download>, i: int) -> int
    decreases i,
{
    if i <= 0 {
        0
    } else {
        started_before(old, new, i - 1) + if newly_started(old, new, i - 1) {
            1int
        } else {
            0int
        }
    }
}

/// What pumping the queue may do to one entry. An entry is tried when it is queued and
/// fewer than `free` entries before it were started: `start` either gave it a job, and it
/// is pending, or an error, and it failed with that error. Any other entry is unchanged.
pub open spec fn pump_entry_ok<F: Fn(u64) -> Result<DownloadFinishJob, String>>(
    start: F,
    old: Seq<Download>,
    new: Seq<Download>,
    i: int,
    free: int,
) -> bool {
    let o = old[i];
    let n = new[i];
    if o.state is Queued && started_before(old, new, i) < free {
        &&& n.id == o.id
        &&& n.copy_job == o.copy_job
        &&& n.state_disc == o.state_disc
        &&& ({
            ||| (n.state is Pending && n.finish_job is Some && call_ensures(
                start,
                (o.id,),
                Ok::<DownloadFinishJob, String>(n.finish_job.unwrap()),
            ))
            ||| (n.state is Error && n.finish_job == o.finish_job && call_ensures(
                start,
                (o.id,),
                Err::<DownloadFinishJob, String>(n.state->Error_0),
            ))
        })
    } else {
        n == o
    }
}

/// Whether `new` is what pumping the queue `old` may give.
pub open spec fn pumped<F: Fn(u64) -> Result<DownloadFinishJob, String>>(
    start: F,
    old: Seq<Download>,
    new: Seq<Download>,
) -> bool {
    &&& new.len() == old.len()
    &&& forall|i: int| 0 <= i < old.len() ==> #[trigger] pump_entry_ok(start, old, new, i, free_slots(old))
}

proof fn lemma_started_before_flat(old: Seq<Download>, new: Seq<Download>, i: int, j: int)
    requires
        0 <= i <= j,
        forall|k: int| i <= k < j ==> !#[trigger] newly_started(old, new, k),
    ensures
        started_before(old, new, j) == started_before(old, new, i),
    decreases j - i,
{
    if j > i {
        lemma_started_before_flat(old, new, i, j - 1);
        assert(!newly_started(old, new, j - 1));
    }
}

proof fn lemma_started_before_prefix(old: Seq<Download>, new: Seq<Download>, new2: Seq<Download>, i: int)
    requires
        0 <= i,
        i <= old.len(),
        i <= new.len(),
        i <= new2.len(),
        forall|k: int| 0 <= k < i ==> new[k] == new2[k],
    ensures
        started_before(old, new, i) == started_before(old, new2, i),
    decreases i,
{
    if i > 0 {
        lemma_started_before_prefix(old, new, new2, i - 1);
    }
}

proof fn lemma_pump_counts<F: Fn(u64) -> Result<DownloadFinishJob, String>>(
    start: F,
    old: Seq<Download>,
    new: Seq<Download>,
    i: int,
)
    requires
        pumped(start, old, new),
        0 <= i <= old.len(),
    ensures
        active_count(new.take(i)) == active_count(old.take(i)) + started_before(old, new, i),
        started_before(old, new, i) <= free_slots(old),
        started_before(old, new, i) >= 0,
    decreases i,
{
    if i > 0 {
        lemma_pump_counts(start, old, new, i - 1);
        assert(new.take(i).drop_last() =~= new.take(i - 1));
        assert(old.take(i).drop_last() =~= old.take(i - 1));
        assert(pump_entry_ok(start, old, new, i - 1, free_slots(old)));
    }
}

/// Pumping the queue adds to the running downloads exactly the ones it started, and starts
/// no more than there were free slots.
pub proof fn lemma_pump_counts_started<F: Fn(u64) -> Result<DownloadFinishJob, String>>(
    start: F,
    old: Seq<Download>,
    new: Seq<Download>,
)
    requires
        pumped(start, old, new),
    ensures
        active_count(new) == active_count(old) + started_before(old, new, old.len() as int),
        0 <= started_before(old, new, old.len() as int) <= free_slots(old),
{
    lemma_pump_counts(start, old, new, old.len() as int);
    assert(new.take(old.len() as int) =~= new);
    assert(old.take(old.len() as int) =~= old);
}

/// Pumping the queue never leaves more than `MAX_ACTIVE` downloads running, unless more
/// than that were running already.
pub proof fn lemma_pump_respects_limit<F: Fn(u64) -> Result<DownloadFinishJob, String>>(
    start: F,
    old: Seq<Download>,
    new: Seq<Download>,
)
    requires
        pumped(start, old, new),
    ensures
        active_count(new) <= (if active_count(old) > MAX_ACTIVE {
            active_count(old)
        } else {
            MAX_ACTIVE as int
        }),
        active_count(old) >= MAX_ACTIVE ==> active_count(new) == active_count(old),
{
    lemma_pump_counts(start, old, new, old.len() as int);
    assert(new.take(old.len() as int) =~= new);
    assert(old.take(old.len() as int) =~= old);
}

impl DownloadPanel {
    /// Starts queued downloads, in list order, while fewer than `MAX_ACTIVE` run.
    pub fn pump_queue<F: Fn(u64) -> Result<DownloadFinishJob, String>>(&mut self, start: &F)
        requires
            forall|id: u64| start.requires((id,)),
        ensures
            queue_pumped(*old(self), *final(self), *start),
    {
        let ghost old_ds = self.downloads@;
        let n = self.downloads.len();
        let mut active: usize = 0;
        let mut c: usize = 0;
        while c < n
            invariant
                c <= n,
                n == self.downloads.len(),
                self.downloads@ == old_ds,
                active == active_count(old_ds.take(c as int)),
                active <= c,
            decreases n - c,
        {
            assert(old_ds.take(c + 1).drop_last() =~= old_ds.take(c as int));
            let k = kind(&self.downloads[c].state);
            if k == StateKind::Pending || k == StateKind::Downloading {
                active = active + 1;
            }
            c = c + 1;
        }
        assert(old_ds.take(n as int) =~= old_ds);
        let free0: usize = if active < MAX_ACTIVE {
            MAX_ACTIVE - active
        } else {
            0
        };
        let mut free = free0;
        let mut i: usize = 0;
        while i < n && free > 0
            invariant
                i <= n,
                n == self.downloads.len(),
                n == old_ds.len(),
                free0 == free_slots(old_ds),
                free + started_before(old_ds, self.downloads@, i as int) == free0,
                forall|k: int| 0 <= k < i ==> #[trigger] pump_entry_ok(*start, old_ds, self.downloads@, k, free0 as int),
                forall|k: int| i <= k < n ==> #[trigger] self.downloads@[k] == old_ds[k],
                forall|id: u64| start.requires((id,)),
                self.input@ == old(self).input@,
                self.dest_input@ == old(self).dest_input@,
                self.dest_path@ == old(self).dest_path@,
                self.error == old(self).error,
                self.pending_collection == old(self).pending_collection,
            decreases n - i,
        {
            let ghost before = self.downloads@;
            if kind(&self.downloads[i].state) == StateKind::Queued {
                let id = self.downloads[i].id;
                match start(id) {
                    Ok(job) => {
                        self.downloads[i].finish_job = Some(job);
                        self.downloads[i].state = DownloadState::Pending;
                        free = free - 1;
                    },
                    Err(e) => {
                        self.downloads[i].state = DownloadState::Error(e);
                    },
                }
            }
            proof {
                lemma_started_before_prefix(old_ds, before, self.downloads@, i as int);
                assert forall|k: int| 0 <= k < i + 1 implies #[trigger] pump_entry_ok(*start, old_ds, self.downloads@, k, free0 as int) by {
                    if k < i {
                        lemma_started_before_prefix(old_ds, before, self.downloads@, k);
                        assert(pump_entry_ok(*start, old_ds, before, k, free0 as int));
                        assert(self.downloads@[k] == before[k]);
                    }
                }
            }
            i = i + 1;
        }
        proof {
            assert forall|k: int| i <= k < n implies !#[trigger] newly_started(old_ds, self.downloads@, k) by {
                assert(self.downloads@[k] == old_ds[k]);
            }
            assert forall|k: int| 0 <= k < n implies #[trigger] pump_entry_ok(*start, old_ds, self.downloads@, k, free0 as int) by {
                if k >= i {
                    lemma_started_before_flat(old_ds, self.downloads@, i as int, k);
                    assert(self.downloads@[k] == old_ds[k]);
                }
            }
        }
    }
}

/// Whether `d` has a job to check on: it is not finished and some job is running.
pub open spec fn in_flight(d: Download) -> bool {
    !(d.state is Done || d.state is Error) && (d.copy_job is Some || d.finish_job is Some)
}

/// What checking on the jobs of download `o` may leave, as `n`.
///
/// A finished download, or one without jobs, is unchanged. A running copy job either has
/// no outcome yet and stays, or is dropped and its outcome becomes the state. Otherwise
/// the finish job either reports an install folder, which is handed to `start_copy` with
/// the item and the destination, or a failure, which becomes the error; or it has no
/// outcome yet, stays, and the progress that `poll_progress` reports becomes the state
/// when a download is under way.
pub open spec fn advance_entry_ok<
    FC: Fn(String, u64, String) -> CopyUnpackJob,
    FP: Fn(u64) -> PollResult,
>(start_copy: FC, poll_progress: FP, dest: String, o: Download, n: Download) -> bool {
    &&& n.id == o.id
    &&& n.state_disc == o.state_disc
    &&& if !in_flight(o) {
        n == o
    } else if o.copy_job is Some {
        &&& n.finish_job == o.finish_job
        &&& ({
            ||| (n.copy_job is Some && n.copy_job.unwrap().outcome() is None && o.copy_job.unwrap().outcome() is None && n.copy_job.unwrap().receiver() == o.copy_job.unwrap().receiver() && n.state == o.state)
            ||| (n.copy_job is None && copy_got(o.copy_job.unwrap(), n.state))
        })
    } else {
        ||| (n.finish_job is None && n.state == o.state && n.copy_job is Some && exists|src: String|
            #![trigger call_ensures(start_copy, (src, o.id, dest), n.copy_job.unwrap())]
            call_ensures(start_copy, (src, o.id, dest), n.copy_job.unwrap()) && finish_got(o.finish_job.unwrap(), FinishResult::Installed(src)))
        ||| (n.finish_job is None && n.copy_job == o.copy_job && n.state is Error && finish_got(o.finish_job.unwrap(), FinishResult::Failed(n.state->Error_0)))
        ||| (n.finish_job is Some && n.finish_job.unwrap().outcome() is None && o.finish_job.unwrap().outcome() is None && n.finish_job.unwrap().receiver() == o.finish_job.unwrap().receiver() && n.copy_job == o.copy_job && exists|p: PollResult|
            #![trigger call_ensures(poll_progress, (o.id,), p)]
            call_ensures(poll_progress, (o.id,), p) && n.state == (match p {
                PollResult::Downloading(st) => st,
                PollResult::Pending => o.state,
            }))
    }
}

/// Checks on the jobs of one download.
fn advance_one<FC: Fn(String, u64, String) -> CopyUnpackJob, FP: Fn(u64) -> PollResult>(
    d: Download,
    dest: &String,
    start_copy: &FC,
    poll_progress: &FP,
) -> (r: (Download, bool))
    requires
        forall|a: String, b: u64, c: String| start_copy.requires((a, b, c)),
        forall|id: u64| poll_progress.requires((id,)),
    ensures
        advance_entry_ok(*start_copy, *poll_progress, *dest, d, r.0),
        r.1 == in_flight(d),
{
    let ghost o = d;
    let mut d = d;
    let k = kind(&d.state);
    if k == StateKind::Done || k == StateKind::Error {
        return (d, false);
    }
    match d.copy_job.take() {
        Some(mut job) => {
            let got = match job.poll() {
                Some(st) => Some(st.clone()),
                None => None,
            };
            match got {
                Some(st) => {
                    d.state = st;
                },
                None => {
                    d.copy_job = Some(job);
                },
            }
            return (d, true);
        },
        None => {},
    }
    match d.finish_job.take() {
        Some(mut job) => {
            let got = match job.poll() {
                Some(FinishResult::Installed(src)) => Some(FinishResult::Installed(src.clone())),
                Some(FinishResult::Failed(e)) => Some(FinishResult::Failed(e.clone())),
                None => None,
            };
            match got {
                Some(FinishResult::Installed(src)) => {
                    let ghost src_g = src;
                    let job2 = start_copy(src, d.id, dest.clone());
                    d.copy_job = Some(job2);
                    assert(call_ensures(*start_copy, (src_g, o.id, *dest), d.copy_job.unwrap()));
                },
                Some(FinishResult::Failed(e)) => {
                    d.state = DownloadState::Error(e);
                },
                None => {
                    let p = poll_progress(d.id);
                    let ghost pg = p;
                    match p {
                        PollResult::Downloading(st) => {
                            d.state = st;
                        },
                        PollResult::Pending => {},
                    }
                    d.finish_job = Some(job);
                    assert(call_ensures(*poll_progress, (o.id,), pg));
                },
            }
            (d, true)
        },
        None => (d, false),
    }
}

impl DownloadPanel {
    /// Checks on the jobs of every download, shown or not; says whether any job was
    /// running, so that the view keeps refreshing.
    pub fn advance_jobs<FC: Fn(String, u64, String) -> CopyUnpackJob, FP: Fn(u64) -> PollResult>(
        &mut self,
        start_copy: &FC,
        poll_progress: &FP,
    ) -> (needs_repaint: bool)
        requires
            forall|a: String, b: u64, c: String| start_copy.requires((a, b, c)),
            forall|id: u64| poll_progress.requires((id,)),
        ensures
            jobs_advanced(*old(self), *final(self), *start_copy, *poll_progress, needs_repaint),
    {
        let dest = self.dest_path.clone();
        let mut old_ds: Vec<Download> = Vec::new();
        std::mem::swap(&mut old_ds, &mut self.downloads);
        let ghost all = old_ds@;
        let mut repaint = false;
        for d in it: old_ds.into_iter()
            invariant
                it.seq() == all,
                self.downloads.len() == it.index(),
                dest == old(self).dest_path,
                forall|a: String, b: u64, c: String| start_copy.requires((a, b, c)),
                forall|id: u64| poll_progress.requires((id,)),
                forall|k: int|
                    0 <= k < self.downloads.len() ==> #[trigger] advance_entry_ok(
                        *start_copy,
                        *poll_progress,
                        dest,
                        all[k],
                        self.downloads@[k],
                    ),
                repaint == exists|k: int| 0 <= k < it.index() && #[trigger] in_flight(all[k]),
                self.input == old(self).input,
                self.dest_input == old(self).dest_input,
                self.dest_path == old(self).dest_path,
                self.error == old(self).error,
                self.pending_collection == old(self).pending_collection,
        {
            let ghost idx = self.downloads.len() as int;
            assert(d == all[idx]);
            let ghost prev = self.downloads@;
            let (nd, r) = advance_one(d, &dest, start_copy, poll_progress);
            self.downloads.push(nd);
            repaint = repaint || r;
            assert forall|k: int|
                0 <= k < self.downloads.len() implies #[trigger] advance_entry_ok(
                *start_copy,
                *poll_progress,
                dest,
                all[k],
                self.downloads@[k],
            ) by {
                if k < idx {
                    assert(self.downloads@[k] == prev[k]);
                }
            }
        }
        repaint
    }

    /// Records the variant of every state as laid out; says whether any had changed, so
    /// that the list's layout is computed again.
    pub fn refresh_layout(&mut self) -> (changed: bool)
        ensures
            laid_out(*old(self), *final(self), changed),
    {
        let ghost old_ds = self.downloads@;
        let mut changed = false;
        let mut i: usize = 0;
        while i < self.downloads.len()
            invariant
                i <= self.downloads.len(),
                self.downloads.len() == old_ds.len(),
                forall|k: int|
                    0 <= k < i ==> {
                        let o = old_ds[k];
                        let n = #[trigger] self.downloads@[k];
                        n == Download { state_disc: kind_of(o.state), ..o }
                    },
                forall|k: int| i <= k < old_ds.len() ==> #[trigger] self.downloads@[k] == old_ds[k],
                changed == exists|k: int|
                    0 <= k < i && (#[trigger] old_ds[k]).state_disc != kind_of(old_ds[k].state),
                self.input == old(self).input,
                self.dest_input == old(self).dest_input,
                self.dest_path == old(self).dest_path,
                self.error == old(self).error,
                self.pending_collection == old(self).pending_collection,
            decreases self.downloads.len() - i,
        {
            let k = kind(&self.downloads[i].state);
            if k != self.downloads[i].state_disc {
                self.downloads[i].state_disc = k;
                changed = true;
            }
            i = i + 1;
        }
        changed
    }
}

/// Whether a download in state `s` still has work ahead of it.
pub open spec fn is_busy_state(s: DownloadState) -> bool {
    s is Queued || s is Pending || s is Downloading
}

/// The message shown when the id field holds no workshop id.
pub open spec fn no_id_message() -> Seq<char> {
    "Couldn't find a valid ID in that input."@
}

impl DownloadPanel {
    /// Takes what was typed into the id field: a workshop id starts resolving it as a
    /// collection (with `start`) and clears the field; anything else is reported.
    pub fn submit<F: FnOnce(u64) -> CollectionResolveJob>(&mut self, start: F)
        requires
            forall|id: u64| start.requires((id,)),
        ensures
            submitted(*old(self), *final(self), start),
    {
        self.error = None;
        match parse_id(self.input.as_str()) {
            None => {
                self.error = Some("Couldn't find a valid ID in that input.".to_owned());
            },
            Some(id) => {
                self.pending_collection = Some(start(id));
                self.input = String::new();
            },
        }
    }

    /// Whether anything is still in progress: a collection being resolved, or a download
    /// queued, pending or under way.
    pub fn busy(&self) -> (b: bool)
        ensures
            b == panel_busy(*self),
    {
        if self.pending_collection.is_some() {
            return true;
        }
        let mut i: usize = 0;
        while i < self.downloads.len()
            invariant
                i <= self.downloads.len(),
                forall|k: int| 0 <= k < i ==> !is_busy_state(#[trigger] self.downloads@[k].state),
            decreases self.downloads.len() - i,
        {
            let k = kind(&self.downloads[i].state);
            if k == StateKind::Queued || k == StateKind::Pending || k == StateKind::Downloading {
                return true;
            }
            i = i + 1;
        }
        false
    }

    /// Whether a collection is being resolved.
    pub fn is_resolving(&self) -> (b: bool)
        ensures
            b == self.pending_spec() is Some,
    {
        self.pending_collection.is_some()
    }

    /// The text typed into the id field.
    pub fn input(&self) -> (r: &String)
        ensures
            r@ == self.input_spec(),
    {
        &self.input
    }

    /// Replaces the text of the id field.
    pub fn set_input(&mut self, text: String)
        ensures
            final(self).input_spec() == text@,
            final(self).downloads_spec() == old(self).downloads_spec(),
            final(self).dest_input_spec() == old(self).dest_input_spec(),
            final(self).dest_path_spec() == old(self).dest_path_spec(),
            final(self).error_spec() == old(self).error_spec(),
            final(self).pending_spec() == old(self).pending_spec(),
    {
        self.input = text;
    }

    /// The text of the destination field.
    pub fn dest_input(&self) -> (r: &String)
        ensures
            r@ == self.dest_input_spec(),
    {
        &self.dest_input
    }

    /// Edits the destination field; the destination folder follows it.
    pub fn set_dest_input(&mut self, text: String)
        ensures
            final(self).dest_input_spec() == text@,
            final(self).dest_path_spec() == text@,
            final(self).input_spec() == old(self).input_spec(),
            final(self).downloads_spec() == old(self).downloads_spec(),
            final(self).error_spec() == old(self).error_spec(),
            final(self).pending_spec() == old(self).pending_spec(),
    {
        self.dest_path = text.clone();
        self.dest_input = text;
    }

    /// The error shown under the id field.
    pub fn error(&self) -> (r: &Option<String>)
        ensures
            *r == self.error_spec(),
    {
        &self.error
    }

    /// The download list.
    pub fn downloads(&self) -> (r: &Vec<Download>)
        ensures
            r@ == self.downloads_spec(),
    {
        &self.downloads
    }

    /// Replaces the download list, as a rescan of the destination folder does.
    pub fn replace_downloads(&mut self, downloads: Vec<Download>)
        ensures
            final(self).downloads_spec() == downloads@,
            final(self).input_spec() == old(self).input_spec(),
            final(self).dest_input_spec() == old(self).dest_input_spec(),
            final(self).dest_path_spec() == old(self).dest_path_spec(),
            final(self).error_spec() == old(self).error_spec(),
            final(self).pending_spec() == old(self).pending_spec(),
    {
        self.downloads = downloads;
    }
}

impl Download {
    /// The download `Download::new(id, DownloadState::Queued)` makes.
    pub open spec fn new_spec(id: u64) -> Download {
        Download {
            id,
            state: DownloadState::Queued,
            finish_job: None,
            copy_job: None,
            state_disc: StateKind::Queued,
        }
    }
}

/// The workshop page of item `id`.
pub open spec fn workshop_url_spec(id: u64) -> Seq<char> {
    "https://steamcommunity.com/sharedfiles/filedetails/?id="@ + decimal(id as nat)
}

/// The workshop page of item `id`.
pub fn workshop_url(id: u64) -> (r: String)
    ensures
        r@ == workshop_url_spec(id),
{
    let mut r = String::new();
    r.append("https://steamcommunity.com/sharedfiles/filedetails/?id=");
    push_decimal(&mut r, id);
    r
}

/// The line shown under a download in state `s`; none while it downloads, where a
/// progress bar stands instead.
pub open spec fn status_line_spec(s: DownloadState) -> Option<Seq<char>> {
    match s {
        DownloadState::Queued => Some("Waiting in queue..."@),
        DownloadState::Pending => Some("Queued..."@),
        DownloadState::Downloading { .. } => None,
        DownloadState::Done { gma, unpacked } => Some(
            match unpacked {
                Some(dir) => dir@,
                None => gma@,
            },
        ),
        DownloadState::Error(e) => Some(e@),
    }
}

/// The line shown under a download in state `s`.
pub fn status_line(s: &DownloadState) -> (r: Option<String>)
    ensures
        (match r {
            Some(t) => Some(t@),
            None => None,
        }) == status_line_spec(*s),
{
    match s {
        DownloadState::Queued => Some("Waiting in queue...".to_owned()),
        DownloadState::Pending => Some("Queued...".to_owned()),
        DownloadState::Downloading { .. } => None,
        DownloadState::Done { gma, unpacked } => match unpacked {
            Some(dir) => Some(dir.clone()),
            None => Some(gma.clone()),
        },
        DownloadState::Error(e) => Some(e.clone()),
    }
}

/// An id written out, and the workshop page built for it, both read back as that id.
pub proof fn lemma_parse_id_round_trip(n: u64)
    ensures
        parse_id_spec(decimal(n as nat)) == Some(n),
        parse_id_spec(workshop_url_spec(n)) == Some(n),
{
    let d = decimal(n as nat);
    lemma_parse_decimal(n);
    let l = "https://steamcommunity.com/sharedfiles/filedetails/?id="@;
    reveal_strlit("https://steamcommunity.com/sharedfiles/filedetails/?id=");
    assert(l.len() == 55);
    let u = l + d;
    assert(u == workshop_url_spec(n));
    assert(u[0] == 'h');
    assert(u.last() == d.last());
    assert(is_digit_spec(d[d.len() - 1]));
    lemma_trim_unchanged(u);
    assert(!is_digit_spec(u[0]));
    assert(parse_u64_spec(u) is None);
    assert forall|k: int| 0 <= k < 51 implies !is_query_sep(#[trigger] u[k]) by {
        assert(u[k] == l[k]);
    }
    assert(u[51] == '?');
    lemma_query_part_len_at(u, 51);
    assert(!starts_with_id_eq(u.take(51)));
    let rest = u.skip(52);
    assert(rest.len() == d.len() + 3);
    assert forall|k: int| 0 <= k < rest.len() implies !is_query_sep(#[trigger] rest[k]) by {
        if k >= 3 {
            assert(rest[k] == d[k - 3]);
            assert(is_digit_spec(d[k - 3]));
        } else {
            assert(rest[k] == l[52 + k]);
        }
    }
    lemma_query_part_len_at(rest, rest.len() as int);
    assert(rest.take(rest.len() as int) =~= rest);
    assert(rest[0] == 'i' && rest[1] == 'd' && rest[2] == '=');
    assert(rest.skip(3) =~= d);
    assert(first_id_param(rest) == Some(d));
    assert(first_id_param(u) == Some(d));
}

/// The colour of the dot beside a download.
#[derive(PartialEq, Eq, Structural, Clone, Copy, Debug)]
pub enum DotColor {
    Red,
    Green,
    Grey,
    Yellow,
}

/// The dot of a download in a state of kind `k`: red for a failure, green when done, grey
/// while queued, yellow while Steam is on it.
pub open spec fn dot_color_spec(k: StateKind) -> DotColor {
    match k {
        StateKind::Error => DotColor::Red,
        StateKind::Done => DotColor::Green,
        StateKind::Queued => DotColor::Grey,
        _ => DotColor::Yellow,
    }
}

/// The colour of the dot beside a download in state `s`.
pub fn dot_color(s: &DownloadState) -> (c: DotColor)
    ensures
        c == dot_color_spec(kind_of(*s)),
{
    match s {
        DownloadState::Error(_) => DotColor::Red,
        DownloadState::Done { .. } => DotColor::Green,
        DownloadState::Queued => DotColor::Grey,
        _ => DotColor::Yellow,
    }
}

/// Whether anything is in progress on panel `p`: a collection being resolved, or a
/// download queued, pending or under way.
pub open spec fn panel_busy(p: DownloadPanel) -> bool {
    p.pending_spec() is Some || exists|i: int|
        0 <= i < p.downloads_spec().len() && is_busy_state(#[trigger] p.downloads_spec()[i].state)
}

/// Panel `b` is panel `a` with its list replaced by one that `scan` gives, when `act`;
/// otherwise it is `a`.
pub open spec fn rescan_step<FR: Fn() -> Vec<Download>>(
    a: DownloadPanel,
    b: DownloadPanel,
    act: bool,
    scan: FR,
) -> bool {
    if act {
        &&& exists|list: Vec<Download>| #[trigger]
            call_ensures(scan, (), list) && b.downloads_spec() == list@
        &&& same_besides_list(a, b)
    } else {
        b == a
    }
}

/// Panel `b` is panel `a` with its list read again, when a refresh was asked for and
/// nothing is in progress; otherwise it is `a`.
pub open spec fn refresh_step<FR: Fn() -> Vec<Download>>(
    a: DownloadPanel,
    b: DownloadPanel,
    refresh: bool,
    scan: FR,
) -> bool {
    rescan_step(a, b, refresh && !panel_busy(a), scan)
}

/// Panel `b` is panel `a` after submitting the id field with `start`, when a submit was
/// asked for and no collection is being resolved; otherwise it is `a`.
pub open spec fn submit_step<F: FnOnce(u64) -> CollectionResolveJob>(
    a: DownloadPanel,
    b: DownloadPanel,
    submit: bool,
    start: F,
) -> bool {
    if submit && a.pending_spec() is None {
        submitted(a, b, start)
    } else {
        b == a
    }
}

/// What the user did on the download tab during one frame.
pub struct FrameEvents {
    /// Asked for the list to be read again from the download folder (F5).
    pub refresh: bool,
    /// Asked for the id field to be downloaded.
    pub submit: bool,
    /// Asked for all downloads to be cancelled, which reads the list again.
    pub cancel_all: bool,
}

/// What one frame of the download tab reports, for the view to refresh itself.
pub struct FrameReport {
    /// A collection is still being resolved.
    pub resolving: bool,
    /// Some job was running.
    pub jobs_running: bool,
    /// The variant of some state changed, so that the list is laid out again.
    pub layout_changed: bool,
}

impl DownloadPanel {
    /// One frame of the download tab, in order: the collection being resolved is checked
    /// on; a refresh reads the list again (with `scan`) unless anything is in progress; a
    /// submit takes the id field unless a collection is being resolved; "cancel all" reads
    /// the list again whatever is in progress; every job is checked on; queued downloads
    /// start while slots are free; and the layout is recorded.
    pub fn frame<
        FR: Fn() -> Vec<Download>,
        FJ: FnOnce(u64) -> CollectionResolveJob,
        FC: Fn(String, u64, String) -> CopyUnpackJob,
        FP: Fn(u64) -> PollResult,
        FS: Fn(u64) -> Result<DownloadFinishJob, String>,
    >(
        &mut self,
        events: FrameEvents,
        scan: &FR,
        start_collection: FJ,
        start_copy: &FC,
        poll_progress: &FP,
        start: &FS,
    ) -> (r: FrameReport)
        requires
            scan.requires(()),
            forall|id: u64| start_collection.requires((id,)),
            forall|a: String, b: u64, c: String| start_copy.requires((a, b, c)),
            forall|id: u64| poll_progress.requires((id,)),
            forall|id: u64| start.requires((id,)),
        ensures
            exists|p1: DownloadPanel, p2: DownloadPanel, p3: DownloadPanel, p4: DownloadPanel,
                p5: DownloadPanel, p6: DownloadPanel|
                #![trigger collection_polled(*old(self), p1, r.resolving), refresh_step(p1, p2, events.refresh, *scan), submit_step(p2, p3, events.submit, start_collection), rescan_step(p3, p4, events.cancel_all, *scan), jobs_advanced(p4, p5, *start_copy, *poll_progress, r.jobs_running), queue_pumped(p5, p6, *start)]
                {
                    &&& collection_polled(*old(self), p1, r.resolving)
                    &&& refresh_step(p1, p2, events.refresh, *scan)
                    &&& submit_step(p2, p3, events.submit, start_collection)
                    &&& rescan_step(p3, p4, events.cancel_all, *scan)
                    &&& jobs_advanced(p4, p5, *start_copy, *poll_progress, r.jobs_running)
                    &&& queue_pumped(p5, p6, *start)
                    &&& laid_out(p6, *final(self), r.layout_changed)
                },
    {
        let resolving = self.poll_collection();
        let ghost p1 = *self;
        let idle = !self.busy();
        if events.refresh && idle {
            let list = scan();
            self.replace_downloads(list);
        }
        let ghost p2 = *self;
        if events.submit && !self.is_resolving() {
            self.submit(start_collection);
        }
        let ghost p3 = *self;
        if events.cancel_all {
            let list = scan();
            self.replace_downloads(list);
        }
        let ghost p4 = *self;
        let jobs_running = self.advance_jobs(start_copy, poll_progress);
        let ghost p5 = *self;
        self.pump_queue(start);
        let ghost p6 = *self;
        let layout_changed = self.refresh_layout();
        let r = FrameReport { resolving, jobs_running, layout_changed };
        assert(collection_polled(*old(self), p1, r.resolving));
        assert(refresh_step(p1, p2, events.refresh, *scan));
        assert(submit_step(p2, p3, events.submit, start_collection));
        assert(rescan_step(p3, p4, events.cancel_all, *scan));
        assert(jobs_advanced(p4, p5, *start_copy, *poll_progress, r.jobs_running));
        assert(queue_pumped(p5, p6, *start));
        assert(laid_out(p6, *self, r.layout_changed));
        r
    }
}

/// Checking on a download that waits for Steam: its finish job is dropped only once an
/// outcome came out of the job's channel; an install folder that came out of it is handed
/// to the copy step; the download fails only with a failure that came out of it; and while
/// no outcome arrives the job keeps waiting on its channel, the state unchanged as long as
/// Steam reports no progress.
pub proof fn lemma_advance_waits_for_steam<
    FC: Fn(String, u64, String) -> CopyUnpackJob,
    FP: Fn(u64) -> PollResult,
>(start_copy: FC, poll_progress: FP, dest: String, o: Download, n: Download)
    requires
        advance_entry_ok(start_copy, poll_progress, dest, o, n),
        in_flight(o),
        o.copy_job is None,
    ensures
        n.id == o.id,
        n.finish_job is None ==> exists|v: FinishResult| finish_got(o.finish_job.unwrap(), v),
        n.finish_job is None && n.copy_job is Some ==> exists|src: String|
            #[trigger] finish_got(o.finish_job.unwrap(), FinishResult::Installed(src))
                && call_ensures(start_copy, (src, o.id, dest), n.copy_job.unwrap()),
        n.finish_job is None && n.copy_job is None ==> n.state is Error && finish_got(
            o.finish_job.unwrap(),
            FinishResult::Failed(n.state->Error_0),
        ),
        n.finish_job is Some ==> {
            &&& n.finish_job.unwrap().receiver() == o.finish_job.unwrap().receiver()
            &&& n.finish_job.unwrap().outcome() is None
            &&& n.copy_job is None
        },
        n.finish_job is Some && (forall|p: PollResult|
            #[trigger] call_ensures(poll_progress, (o.id,), p) ==> p is Pending) ==> n.state
            == o.state,
{
    if n.finish_job is None && n.copy_job is Some {
        let src = choose|src: String|
            #![trigger call_ensures(start_copy, (src, o.id, dest), n.copy_job.unwrap())]
            call_ensures(start_copy, (src, o.id, dest), n.copy_job.unwrap()) && finish_got(
                o.finish_job.unwrap(),
                FinishResult::Installed(src),
            );
        assert(finish_got(o.finish_job.unwrap(), FinishResult::Installed(src)));
    }
    if n.finish_job is None && n.copy_job is None {
        assert(finish_got(o.finish_job.unwrap(), FinishResult::Failed(n.state->Error_0)));
    }
}

/// Checking on a download whose copy runs: once the copy job is done, the download takes
/// exactly the state that came out of the job's channel (its unpacked folder included);
/// until then the job keeps waiting on its channel and the state is unchanged.
pub proof fn lemma_advance_takes_copy_result<
    FC: Fn(String, u64, String) -> CopyUnpackJob,
    FP: Fn(u64) -> PollResult,
>(start_copy: FC, poll_progress: FP, dest: String, o: Download, n: Download)
    requires
        advance_entry_ok(start_copy, poll_progress, dest, o, n),
        in_flight(o),
        o.copy_job is Some,
    ensures
        n.id == o.id,
        n.finish_job == o.finish_job,
        n.copy_job is None ==> copy_got(o.copy_job.unwrap(), n.state),
        n.copy_job is Some ==> {
            &&& n.state == o.state
            &&& n.copy_job.unwrap().receiver() == o.copy_job.unwrap().receiver()
            &&& n.copy_job.unwrap().outcome() is None
        },
{
}

/// Queueing an item lists it, and keeps every item listed before.
proof fn lemma_queue_one_lists(e: Seq<(u64, DownloadState)>, id: u64, x: u64)
    ensures
        has_id(queue_one_spec(e, id), x) <==> (has_id(e, x) || x == id),
{
    if !has_id(e, id) {
        let q = queue_one_spec(e, id);
        assert(q[0].0 == id);
        if has_id(e, x) {
            let i = choose|i: int| 0 <= i < e.len() && (#[trigger] e[i]).0 == x;
            assert(q[i + 1] == e[i]);
        }
        if has_id(q, x) {
            let i = choose|i: int| 0 <= i < q.len() && (#[trigger] q[i]).0 == x;
            if i > 0 {
                assert(q[i] == e[i - 1]);
            }
        }
    }
}

/// Queueing a list of items lists each of them, and keeps every item listed before.
proof fn lemma_queue_all_lists(e: Seq<(u64, DownloadState)>, ids: Seq<u64>, x: u64)
    ensures
        has_id(queue_all(e, ids), x) <==> (has_id(e, x) || ids.contains(x)),
    decreases ids.len(),
{
    if ids.len() > 0 {
        lemma_queue_one_lists(e, ids[0], x);
        lemma_queue_all_lists(queue_one_spec(e, ids[0]), ids.drop_first(), x);
        if ids.contains(x) {
            let k = choose|k: int| 0 <= k < ids.len() && ids[k] == x;
            if k > 0 {
                assert(ids.drop_first()[k - 1] == x);
            }
        }
        if ids.drop_first().contains(x) {
            let k = choose|k: int| 0 <= k < ids.drop_first().len() && ids.drop_first()[k] == x;
            assert(ids[k + 1] == x);
        }
    } else {
        assert(!ids.contains(x));
    }
}

/// Once the collection being resolved is done, the outcome that came out of its channel is
/// applied: for a list of children, the resolved item and each child are listed afterwards
/// (an item that is no collection, with no children, is queued by itself) and the error is
/// kept; for a failure, the list is kept and the failure is shown.
pub proof fn lemma_resolved_outcome_applied(a: DownloadPanel, b: DownloadPanel)
    requires
        collection_polled(a, b, false),
        a.pending_spec() is Some,
    ensures
        b.pending_spec() is None,
        exists|res: Result<Vec<u64>, String>|
            #[trigger] resolve_got(a.pending_spec().unwrap(), res) && match res {
                Ok(kids) => {
                    &&& has_id(b.entries(), a.pending_spec().unwrap().item())
                    &&& forall|k: u64| kids@.contains(k) ==> has_id(b.entries(), k)
                    &&& forall|x: u64| has_id(a.entries(), x) ==> has_id(b.entries(), x)
                    &&& kids@.len() == 0 ==> b.entries() == queue_one_spec(
                        a.entries(),
                        a.pending_spec().unwrap().item(),
                    )
                    &&& b.error_spec() == a.error_spec()
                },
                Err(m) => b.entries() == a.entries() && b.error_spec() == Some(m),
            },
{
    let root = a.pending_spec().unwrap().item();
    let res = choose|res: Result<Vec<u64>, String>|
        resolve_got(a.pending_spec().unwrap(), res) && #[trigger] collection_applied(
            a.entries(),
            a.error_spec(),
            root,
            res,
            b.entries(),
            b.error_spec(),
        );
    match res {
        Ok(kids) => {
            let ids = seq![root] + kids@.reverse();
            assert(ids[0] == root);
            assert(ids.contains(root));
            lemma_queue_all_lists(a.entries(), ids, root);
            assert forall|k: u64| kids@.contains(k) implies has_id(b.entries(), k) by {
                let j = choose|j: int| 0 <= j < kids@.len() && kids@[j] == k;
                assert(kids@.reverse()[kids@.len() - 1 - j] == k);
                assert(ids[kids@.len() - j] == k);
                lemma_queue_all_lists(a.entries(), ids, k);
            }
            assert forall|x: u64| has_id(a.entries(), x) implies has_id(b.entries(), x) by {
                lemma_queue_all_lists(a.entries(), ids, x);
            }
            if kids@.len() == 0 {
                assert(ids =~= seq![root]);
                assert(ids.drop_first() =~= Seq::<u64>::empty());
                assert(queue_all(a.entries(), ids) == queue_all(
                    queue_one_spec(a.entries(), root),
                    ids.drop_first(),
                ));
                assert(b.entries() == queue_one_spec(a.entries(), root));
            }
            assert(has_id(b.entries(), root));
            assert(b.error_spec() == a.error_spec());
            assert(resolve_got(a.pending_spec().unwrap(), res));
        },
        Err(m) => {
            assert(resolve_got(a.pending_spec().unwrap(), res));
        },
    }
}

} // verus!
