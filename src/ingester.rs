//! The batch-and-commit state machine of one ingester.
//!
//! A caller runs the cycle: it opens a window, hands over each received
//! message while [`Ingester::wants_message`] holds, and at the end of the
//! window, when [`Ingester::needs_flush`] holds, inserts
//! [`Ingester::pending_rows`] and reports the outcome with
//! [`Ingester::on_insert`] until that returns the offsets to commit. Rows
//! are dropped only after they were inserted, and offsets are handed out
//! for commit only then: delivery is at least once.
use vstd::prelude::*;

use crate::column::{Row, RowV, row_view};
use crate::decoder::DecodeError;
use crate::offsets::{OffsetTracker, PartitionKey, entry_key, raised};
use crate::settings;

verus! {

/// The state of an ingester: the rows waiting for insertion, the offsets
/// of the current window, and the largest batch.
pub struct IngesterView {
    pub batch: Seq<RowV>,
    pub offsets: Map<PartitionKey, i64>,
    pub batch_size: nat,
}

/// A received message as the ingester sees it: its partition, its offset,
/// and its row, or `None` where it could not be decoded.
pub struct Received {
    pub key: PartitionKey,
    pub offset: i64,
    pub row: Option<RowV>,
}

/// The state after a window opens: no offsets recorded yet.
pub open spec fn opened(s: IngesterView) -> IngesterView {
    IngesterView { offsets: Map::empty(), ..s }
}

/// The state after a message is received: its next offset is recorded
/// whether or not it decoded, and its row, if any, joins the batch.
pub open spec fn received(s: IngesterView, m: Received) -> IngesterView {
    IngesterView {
        offsets: s.offsets.insert(m.key, raised(s.offsets, m.key, (m.offset + 1) as i64)),
        batch: match m.row {
            Some(r) => s.batch.push(r),
            None => s.batch,
        },
        ..s
    }
}

/// Whether a window that ends in this state has work: rows or offsets.
pub open spec fn has_work(s: IngesterView) -> bool {
    !(s.offsets == Map::<PartitionKey, i64>::empty() && s.batch.len() == 0)
}

/// The state after an insert of the batch, and the offsets to commit: on
/// success the batch is emptied and the window's offsets are handed out;
/// on failure nothing changes and nothing is committed.
pub open spec fn inserted(s: IngesterView, ok: bool) -> (IngesterView, Option<
    Map<PartitionKey, i64>,
>) {
    if ok {
        (IngesterView { batch: Seq::empty(), ..s }, Some(s.offsets))
    } else {
        (s, None)
    }
}

pub open spec fn batch_view(b: Seq<Row>) -> Seq<RowV> {
    b.map_values(|r: Row| row_view(r@))
}

/// Whether `list` holds exactly the entries of `m`, each key once.
pub open spec fn lists_offsets(list: Seq<(String, i32, i64)>, m: Map<PartitionKey, i64>) -> bool {
    &&& forall|i: int, j: int|
        0 <= i < j < list.len() ==> entry_key(list[i]) != entry_key(list[j])
    &&& forall|i: int|
        0 <= i < list.len() ==> m.contains_key(entry_key(list[i])) && m[entry_key(list[i])]
            == list[i].2
    &&& forall|k: PartitionKey| #[trigger]
        m.contains_key(k) ==> exists|i: int| 0 <= i < list.len() && entry_key(list[i]) == k
}

/// One ingester: its batch, the offsets of the current window, and where
/// its rows come from and go to.
pub struct Ingester {
    batch: Vec<Row>,
    offsets: OffsetTracker,
    batch_size: usize,
    batch_timeout_seconds: u64,
    topic: String,
    table: String,
}

impl View for Ingester {
    type V = IngesterView;

    closed spec fn view(&self) -> IngesterView {
        IngesterView {
            batch: batch_view(self.batch@),
            offsets: self.offsets@,
            batch_size: self.batch_size as nat,
        }
    }
}

impl Ingester {
    pub closed spec fn wf(&self) -> bool {
        self.offsets.wf()
    }

    pub closed spec fn spec_topic(&self) -> Seq<char> {
        self.topic@
    }

    pub closed spec fn spec_table(&self) -> Seq<char> {
        self.table@
    }

    pub closed spec fn spec_batch_timeout_seconds(&self) -> u64 {
        self.batch_timeout_seconds
    }

    /// An ingester for one configured pipeline, with an empty batch. The
    /// configuration must have had its defaults applied.
    pub fn new(cfg: &settings::Ingester) -> (r: Ingester)
        requires
            cfg.batch_size is Some,
            cfg.batch_timeout_seconds is Some,
        ensures
            r.wf(),
            r@.batch == Seq::<RowV>::empty(),
            r@.offsets == Map::<PartitionKey, i64>::empty(),
            r@.batch_size == cfg.batch_size->Some_0 as nat,
            r.spec_batch_timeout_seconds() == cfg.batch_timeout_seconds->Some_0,
            r.spec_topic() == cfg.topic@,
            r.spec_table() == cfg.clickhouse_table@,
    {
        let batch_size = match cfg.batch_size {
            Some(n) => n,
            None => 0,
        };
        let batch_timeout_seconds = match cfg.batch_timeout_seconds {
            Some(n) => n,
            None => 0,
        };
        let r = Ingester {
            batch: Vec::new(),
            offsets: OffsetTracker::new(),
            batch_size,
            batch_timeout_seconds,
            topic: cfg.topic.clone(),
            table: cfg.clickhouse_table.clone(),
        };
        assert(r@.batch =~= Seq::<RowV>::empty());
        r
    }

    /// The topic to subscribe to.
    pub fn topic(&self) -> (r: &String)
        ensures
            r@ == self.spec_topic(),
    {
        &self.topic
    }

    /// The table to insert into.
    pub fn table(&self) -> (r: &String)
        ensures
            r@ == self.spec_table(),
    {
        &self.table
    }

    /// How long a window waits for the next message, in seconds.
    pub fn batch_timeout_seconds(&self) -> (r: u64)
        ensures
            r == self.spec_batch_timeout_seconds(),
    {
        self.batch_timeout_seconds
    }

    /// Opens a window: the offsets start afresh; the batch is kept.
    pub fn begin_window(&mut self)
        requires
            old(self).wf(),
        ensures
            final(self).wf(),
            final(self)@ == opened(old(self)@),
            final(self).spec_topic() == old(self).spec_topic(),
            final(self).spec_table() == old(self).spec_table(),
            final(self).spec_batch_timeout_seconds() == old(self).spec_batch_timeout_seconds(),
    {
        self.offsets = OffsetTracker::new();
    }

    /// Whether the window takes another message: the batch is not full.
    pub fn wants_message(&self) -> (r: bool)
        ensures
            r == (self@.batch.len() < self@.batch_size),
    {
        self.batch.len() < self.batch_size
    }

    /// Takes in a received message: its next offset is recorded, and its
    /// row joins the batch where it decoded. A message that did not decode
    /// is dropped, its offset still recorded.
    pub fn on_message(
        &mut self,
        topic: &String,
        partition: i32,
        offset: i64,
        decoded: Result<Row, DecodeError>,
    )
        requires
            old(self).wf(),
            offset < i64::MAX,
        ensures
            final(self).wf(),
            final(self)@ == received(
                old(self)@,
                Received {
                    key: (topic@, partition),
                    offset,
                    row: match decoded {
                        Ok(r) => Some(row_view(r@)),
                        Err(_) => None,
                    },
                },
            ),
            final(self).spec_topic() == old(self).spec_topic(),
            final(self).spec_table() == old(self).spec_table(),
            final(self).spec_batch_timeout_seconds() == old(self).spec_batch_timeout_seconds(),
    {
        self.offsets.record(topic, partition, offset + 1);
        match decoded {
            Ok(row) => {
                let ghost before = self.batch@;
                self.batch.push(row);
                assert(batch_view(self.batch@) =~= batch_view(before).push(row_view(row@)));
            },
            Err(_) => {},
        }
    }

    /// Whether the window that just ended has work to flush.
    pub fn needs_flush(&self) -> (r: bool)
        requires
            self.wf(),
        ensures
            r == has_work(self@),
    {
        !(self.offsets.is_empty() && self.batch.len() == 0)
    }

    /// Whether there are rows to insert; an empty batch counts as inserted
    /// without asking the database.
    pub fn insert_needed(&self) -> (r: bool)
        ensures
            r == (self@.batch.len() > 0),
    {
        self.batch.len() > 0
    }

    /// The rows to insert.
    pub fn pending_rows(&self) -> (r: &Vec<Row>)
        ensures
            batch_view(r@) == self@.batch,
    {
        &self.batch
    }

    /// Reports the outcome of an insert of the pending rows. On success the
    /// batch is emptied and the window's offsets are returned for commit; on
    /// failure nothing changes and nothing is returned, so the same rows are
    /// inserted again.
    pub fn on_insert(&mut self, ok: bool) -> (r: Option<Vec<(String, i32, i64)>>)
        requires
            old(self).wf(),
        ensures
            final(self).wf(),
            final(self)@ == inserted(old(self)@, ok).0,
            r is Some <==> ok,
            ok ==> lists_offsets(r->Some_0@, old(self)@.offsets),
            final(self).spec_topic() == old(self).spec_topic(),
            final(self).spec_table() == old(self).spec_table(),
            final(self).spec_batch_timeout_seconds() == old(self).spec_batch_timeout_seconds(),
    {
        if ok {
            let list = self.offsets.to_list();
            self.batch.truncate(0);
            assert(self@.batch =~= Seq::<RowV>::empty());
            Some(list)
        } else {
            None
        }
    }
}

/// The state, the batches presented to the database, and the offsets
/// committed, over a run of insert attempts with the given outcomes.
pub open spec fn flush_run(s: IngesterView, outcomes: Seq<bool>) -> (
    IngesterView,
    Seq<Seq<RowV>>,
    Seq<Map<PartitionKey, i64>>,
)
    decreases outcomes.len(),
{
    if outcomes.len() == 0 {
        (s, Seq::empty(), Seq::empty())
    } else {
        let (t, presented, commits) = flush_run(s, outcomes.drop_last());
        let (u, c) = inserted(t, outcomes.last());
        (
            u,
            presented.push(t.batch),
            match c {
                Some(m) => commits.push(m),
                None => commits,
            },
        )
    }
}

proof fn lemma_failures(s: IngesterView, m: nat)
    ensures
        flush_run(s, Seq::new(m, |i: int| false)) == (
            s,
            Seq::new(m, |i: int| s.batch),
            Seq::<Map<PartitionKey, i64>>::empty(),
        ),
    decreases m,
{
    if m > 0 {
        let outcomes = Seq::new(m, |i: int| false);
        assert(outcomes.drop_last() =~= Seq::new((m - 1) as nat, |i: int| false));
        lemma_failures(s, (m - 1) as nat);
        assert(Seq::new((m - 1) as nat, |i: int| s.batch).push(s.batch) =~= Seq::new(
            m,
            |i: int| s.batch,
        ));
    } else {
        assert(Seq::new(m, |i: int| false) =~= Seq::<bool>::empty());
        assert(Seq::new(m, |i: int| s.batch) =~= Seq::<Seq<RowV>>::empty());
    }
}

/// Inserts that fail `m` times and then succeed present the same batch on
/// every attempt, and commit the window's offsets exactly once, after the
/// success; the batch is then empty.
pub proof fn lemma_insert_retry(s: IngesterView, m: nat)
    ensures
        ({
            let (f, presented, commits) = flush_run(s, Seq::new(m, |i: int| false).push(true));
            &&& presented.len() == m + 1
            &&& forall|i: int| 0 <= i < m + 1 ==> presented[i] == s.batch
            &&& commits == seq![s.offsets]
            &&& f.batch == Seq::<RowV>::empty()
        }),
{
    let outcomes = Seq::new(m, |i: int| false).push(true);
    assert(outcomes.drop_last() =~= Seq::new(m, |i: int| false));
    lemma_failures(s, m);
    assert(Seq::<Map<PartitionKey, i64>>::empty().push(s.offsets) =~= seq![s.offsets]);
}

/// The offsets recorded over a sequence of messages, from none: for each
/// partition, the largest next offset.
pub open spec fn offsets_seen(msgs: Seq<Received>) -> Map<PartitionKey, i64>
    decreases msgs.len(),
{
    if msgs.len() == 0 {
        Map::empty()
    } else {
        let m = offsets_seen(msgs.drop_last());
        let x = msgs.last();
        m.insert(x.key, raised(m, x.key, (x.offset + 1) as i64))
    }
}

/// The rows of the messages that decoded, in order.
pub open spec fn decoded_rows(msgs: Seq<Received>) -> Seq<RowV>
    decreases msgs.len(),
{
    if msgs.len() == 0 {
        Seq::empty()
    } else {
        match msgs.last().row {
            Some(r) => decoded_rows(msgs.drop_last()).push(r),
            None => decoded_rows(msgs.drop_last()),
        }
    }
}

/// The state after receiving a sequence of messages.
pub open spec fn received_all(s: IngesterView, msgs: Seq<Received>) -> IngesterView
    decreases msgs.len(),
{
    if msgs.len() == 0 {
        s
    } else {
        received(received_all(s, msgs.drop_last()), msgs.last())
    }
}

/// Every offset can be handed to the broker as the next one.
pub open spec fn offsets_valid(msgs: Seq<Received>) -> bool {
    forall|i: int| 0 <= i < msgs.len() ==> #[trigger] msgs[i].offset < i64::MAX
}

/// Within each partition, messages arrive in increasing offset order.
pub open spec fn in_partition_order(msgs: Seq<Received>) -> bool {
    forall|i: int, j: int|
        0 <= i < j < msgs.len() && #[trigger] msgs[i].key == #[trigger] msgs[j].key
            ==> msgs[i].offset < msgs[j].offset
}

/// A window that opens in state `s` and receives `w`: the state after it,
/// the offsets committed, and the rows inserted. Retries do not change what
/// is inserted or committed, so the insert is taken as the one that
/// succeeds.
pub open spec fn window(s: IngesterView, w: Seq<Received>) -> (
    IngesterView,
    Option<Map<PartitionKey, i64>>,
    Option<Seq<RowV>>,
) {
    let t = received_all(opened(s), w);
    if has_work(t) {
        let (u, c) = inserted(t, true);
        (u, c, Some(t.batch))
    } else {
        (t, None, None)
    }
}

/// The state, the offsets committed on the broker, and the rows inserted,
/// over a run of windows.
pub open spec fn run(s: IngesterView, ws: Seq<Seq<Received>>) -> (
    IngesterView,
    Map<PartitionKey, i64>,
    Seq<RowV>,
)
    decreases ws.len(),
{
    if ws.len() == 0 {
        (s, Map::empty(), Seq::empty())
    } else {
        let (t, committed, rows) = run(s, ws.drop_last());
        let (u, c, b) = window(t, ws.last());
        (
            u,
            match c {
                Some(m) => committed.union_prefer_right(m),
                None => committed,
            },
            match b {
                Some(b) => rows + b,
                None => rows,
            },
        )
    }
}

/// All messages of a run of windows, in order.
pub open spec fn all_messages(ws: Seq<Seq<Received>>) -> Seq<Received>
    decreases ws.len(),
{
    if ws.len() == 0 {
        Seq::empty()
    } else {
        all_messages(ws.drop_last()) + ws.last()
    }
}

proof fn lemma_received_all(s: IngesterView, msgs: Seq<Received>)
    ensures
        received_all(opened(s), msgs) == (IngesterView {
            batch: s.batch + decoded_rows(msgs),
            offsets: offsets_seen(msgs),
            batch_size: s.batch_size,
        }),
    decreases msgs.len(),
{
    if msgs.len() == 0 {
        assert(s.batch + decoded_rows(msgs) =~= s.batch);
    } else {
        lemma_received_all(s, msgs.drop_last());
        match msgs.last().row {
            Some(r) => {
                assert((s.batch + decoded_rows(msgs.drop_last())).push(r) =~= s.batch
                    + decoded_rows(msgs));
            },
            None => {},
        }
    }
}

/// Each recorded offset is the next offset of a message of its partition.
proof fn lemma_offsets_seen_attained(msgs: Seq<Received>, k: PartitionKey)
    requires
        offsets_seen(msgs).contains_key(k),
    ensures
        exists|i: int|
            0 <= i < msgs.len() && msgs[i].key == k && offsets_seen(msgs)[k] == (msgs[i].offset
                + 1) as i64,
    decreases msgs.len(),
{
    let m = offsets_seen(msgs.drop_last());
    let x = msgs.last();
    if k == x.key && !(m.contains_key(k) && m[k] >= (x.offset + 1) as i64) {
        assert(msgs[msgs.len() - 1].key == k);
    } else {
        lemma_offsets_seen_attained(msgs.drop_last(), k);
        let i = choose|i: int|
            0 <= i < msgs.drop_last().len() && msgs.drop_last()[i].key == k && m[k] == (
            msgs.drop_last()[i].offset + 1) as i64;
        assert(msgs[i].key == k);
    }
}

proof fn lemma_decoded_rows_append(a: Seq<Received>, b: Seq<Received>)
    ensures
        decoded_rows(a + b) == decoded_rows(a) + decoded_rows(b),
    decreases b.len(),
{
    if b.len() == 0 {
        assert(a + b =~= a);
        assert(decoded_rows(a) + decoded_rows(b) =~= decoded_rows(a));
    } else {
        assert((a + b).drop_last() =~= a + b.drop_last());
        assert((a + b).last() == b.last());
        lemma_decoded_rows_append(a, b.drop_last());
        match b.last().row {
            Some(r) => {
                assert((decoded_rows(a) + decoded_rows(b.drop_last())).push(r) =~= decoded_rows(a)
                    + decoded_rows(b));
            },
            None => {},
        }
    }
}

/// With offsets in partition order, what is recorded over `a` then `b` is
/// what `b` recorded, and for the partitions `b` did not see, what `a` did.
proof fn lemma_offsets_seen_append(a: Seq<Received>, b: Seq<Received>)
    requires
        offsets_valid(a + b),
        in_partition_order(a + b),
    ensures
        offsets_seen(a + b) == offsets_seen(a).union_prefer_right(offsets_seen(b)),
    decreases b.len(),
{
    if b.len() == 0 {
        assert(a + b =~= a);
        assert(offsets_seen(a).union_prefer_right(offsets_seen(b)) =~= offsets_seen(a));
    } else {
        let ab = a + b;
        let b1 = b.drop_last();
        let x = b.last();
        assert(ab.drop_last() =~= a + b1);
        assert(ab.last() == x);
        assert(ab[ab.len() - 1] == x);
        assert forall|i: int| 0 <= i < (a + b1).len() implies #[trigger] (a + b1)[i] == ab[i] by {}
        assert(offsets_valid(a + b1));
        assert(in_partition_order(a + b1));
        lemma_offsets_seen_append(a, b1);
        let m = offsets_seen(a + b1);
        let nx = (x.offset + 1) as i64;
        assert(x.offset < i64::MAX);
        if m.contains_key(x.key) {
            lemma_offsets_seen_attained(a + b1, x.key);
            let i = choose|i: int|
                0 <= i < (a + b1).len() && (a + b1)[i].key == x.key && m[x.key] == ((a
                + b1)[i].offset + 1) as i64;
            assert(ab[i].key == ab[ab.len() - 1].key);
            assert((a + b1)[i].offset < i64::MAX);
        }
        let mb = offsets_seen(b1);
        if mb.contains_key(x.key) {
            lemma_offsets_seen_attained(b1, x.key);
            let j = choose|j: int|
                0 <= j < b1.len() && b1[j].key == x.key && mb[x.key] == (b1[j].offset + 1) as i64;
            assert(ab[a.len() + j] == b1[j]);
            assert(ab[a.len() + j].key == ab[ab.len() - 1].key);
            assert(ab[a.len() + j].offset < i64::MAX);
        }
        assert(offsets_seen(ab) =~= offsets_seen(a).union_prefer_right(offsets_seen(b)));
    }
}

/// Over any run of windows that starts with an empty batch and receives
/// each partition's messages in offset order, the offsets committed on the
/// broker are, for each partition, the largest next offset of any message
/// received, and the rows inserted are exactly the rows of the messages
/// that decoded, in order; the batch is empty after each window.
pub proof fn lemma_run_commits_and_inserts(s: IngesterView, ws: Seq<Seq<Received>>)
    requires
        s.batch.len() == 0,
        offsets_valid(all_messages(ws)),
        in_partition_order(all_messages(ws)),
    ensures
        run(s, ws).1 == offsets_seen(all_messages(ws)),
        run(s, ws).2 == decoded_rows(all_messages(ws)),
        run(s, ws).0.batch.len() == 0,
    decreases ws.len(),
{
    if ws.len() == 0 {
    } else {
        let pre = all_messages(ws.drop_last());
        let w = ws.last();
        let all = all_messages(ws);
        assert(all == pre + w);
        assert forall|i: int| 0 <= i < pre.len() implies #[trigger] pre[i] == all[i] by {}
        assert(offsets_valid(pre));
        assert(in_partition_order(pre));
        lemma_run_commits_and_inserts(s, ws.drop_last());
        let (t, committed, rows) = run(s, ws.drop_last());
        lemma_received_all(t, w);
        assert(t.batch + decoded_rows(w) =~= decoded_rows(w));
        lemma_offsets_seen_append(pre, w);
        lemma_decoded_rows_append(pre, w);
        let r = received_all(opened(t), w);
        if !has_work(r) {
            assert(offsets_seen(pre).union_prefer_right(offsets_seen(w)) =~= offsets_seen(pre));
            assert(rows + decoded_rows(w) =~= rows);
        }
    }
}

/// A window that receives nothing, opened with an empty batch, inserts
/// nothing and commits nothing.
pub proof fn lemma_idle_window(s: IngesterView)
    requires
        s.batch.len() == 0,
    ensures
        window(s, Seq::empty()) == (opened(s), None::<Map<PartitionKey, i64>>, None::<Seq<RowV>>),
{
    assert(received_all(opened(s), Seq::empty()) == opened(s));
}

/// A window that ends (by time-out or a full batch) with rows in its batch
/// flushes exactly the accumulated rows: those it started with, then the
/// rows of the messages that decoded, in order; it commits the offsets of
/// all the messages it received.
pub proof fn lemma_window_flushes_rows(s: IngesterView, w: Seq<Received>)
    requires
        s.batch.len() + decoded_rows(w).len() > 0,
    ensures
        window(s, w).1 == Some(offsets_seen(w)),
        window(s, w).2 == Some(s.batch + decoded_rows(w)),
{
    lemma_received_all(s, w);
}

/// After a window, the batch is empty and the next window starts with no
/// offsets recorded.
pub proof fn lemma_next_window_clean(s: IngesterView, w: Seq<Received>)
    requires
        s.batch.len() == 0,
    ensures
        window(s, w).0.batch.len() == 0,
        opened(window(s, w).0).offsets == Map::<PartitionKey, i64>::empty(),
{
    lemma_received_all(s, w);
    assert(s.batch + decoded_rows(w) =~= decoded_rows(w));
}

} // verus!
