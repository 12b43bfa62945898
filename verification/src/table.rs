//! Aggregation table: one entry per distinct topic ever observed, carrying the
//! latest value, the latest receipt time, and how often the topic appeared.
//! The backing order is insertion order of first appearance until a sort
//! reorders it; an upsert never moves an existing entry.
use vstd::prelude::*;

use crate::message::MessageView;
use crate::message::PublishMessage;

verus! {

/// Mathematical view of an entry; `count` is unbounded here.
pub ghost struct EntryView {
    pub topic: Seq<char>,
    pub value: Seq<char>,
    pub time: int,
    pub count: int,
}

/// Per-topic aggregate: latest value, latest receipt time, occurrence count.
pub struct Entry {
    pub topic: String,
    pub value: String,
    pub time: u64,
    pub count: u64,
}

impl View for Entry {
    type V = EntryView;

    open spec fn view(&self) -> EntryView {
        EntryView {
            topic: self.topic@,
            value: self.value@,
            time: self.time as int,
            count: self.count as int,
        }
    }
}

/// The entry an existing aggregate becomes when one more message for its topic
/// arrives: value and time are overwritten, the count grows by exactly one.
pub open spec fn updated_entry(e: EntryView, m: MessageView) -> EntryView {
    EntryView { topic: e.topic, value: m.value, time: m.time, count: e.count + 1 }
}

/// The entry a first message for a topic creates.
pub open spec fn fresh_entry(m: MessageView) -> EntryView {
    EntryView { topic: m.topic, value: m.value, time: m.time, count: 1 }
}

impl Entry {
    pub fn new(topic: String, value: String, time: u64) -> (r: Entry)
        ensures
            r@ == (EntryView { topic: topic@, value: value@, time: time as int, count: 1int }),
    {
        Entry { topic, value, time, count: 1 }
    }

    pub fn update(&mut self, m: &PublishMessage)
        requires
            old(self).count < u64::MAX,
        ensures
            final(self)@ == updated_entry(old(self)@, m@),
    {
        self.value = m.value.clone();
        self.time = m.time;
        self.count = self.count + 1;
    }
}

/// Index of the first entry with topic `t`, or -1 if no entry has it.
pub open spec fn find_topic(s: Seq<EntryView>, t: Seq<char>) -> int
    decreases s.len(),
{
    if s.len() == 0 {
        -1
    } else if s[0].topic == t {
        0
    } else if find_topic(s.skip(1), t) == -1 {
        -1
    } else {
        find_topic(s.skip(1), t) + 1
    }
}

pub open spec fn has_topic(s: Seq<EntryView>, t: Seq<char>) -> bool {
    find_topic(s, t) >= 0
}

/// What `find_topic` returns: a valid index of the first match, or -1 exactly
/// when no entry carries the topic.
pub proof fn lemma_find_topic(s: Seq<EntryView>, t: Seq<char>)
    ensures
        -1 <= find_topic(s, t) < s.len(),
        (find_topic(s, t) == -1) <==> (forall|i: int| 0 <= i < s.len() ==> s[i].topic != t),
        find_topic(s, t) >= 0 ==> s[find_topic(s, t)].topic == t,
        forall|j: int| 0 <= j < find_topic(s, t) ==> s[j].topic != t,
    decreases s.len(),
{
    if s.len() == 0 {
    } else if s[0].topic == t {
    } else {
        let tail = s.skip(1);
        lemma_find_topic(tail, t);
        assert(forall|i: int| 0 <= i < tail.len() ==> tail[i] == s[i + 1]);
        let ft = find_topic(tail, t);
        if ft == -1 {
            assert forall|i: int| 0 <= i < s.len() implies s[i].topic != t by {
                if i > 0 {
                    assert(tail[i - 1] == s[i]);
                }
            }
        } else {
            assert(find_topic(s, t) == ft + 1);
            assert(s[ft + 1] == tail[ft]);
            assert forall|j: int| 0 <= j < ft + 1 implies s[j].topic != t by {
                if j > 0 {
                    assert(tail[j - 1] == s[j]);
                }
            }
        }
    }
}

/// `find_topic` is pinned by any witness of a first match.
pub proof fn lemma_find_topic_at(s: Seq<EntryView>, t: Seq<char>, i: int)
    requires
        0 <= i < s.len(),
        s[i].topic == t,
        forall|j: int| 0 <= j < i ==> s[j].topic != t,
    ensures
        find_topic(s, t) == i,
{
    lemma_find_topic(s, t);
    let f = find_topic(s, t);
    assert(f >= 0);
    if f < i {
        assert(s[f].topic == t);
        assert(false);
    } else if f > i {
        assert(s[i].topic != t);
        assert(false);
    }
}

/// The table after one message: the first entry with the message's topic is
/// updated in place, or a fresh entry is appended when the topic is new.
pub open spec fn upsert_spec(s: Seq<EntryView>, m: MessageView) -> Seq<EntryView> {
    let i = find_topic(s, m.topic);
    if i == -1 {
        s.push(fresh_entry(m))
    } else {
        s.update(i, updated_entry(s[i], m))
    }
}

/// Every count still has room in the machine word that stores it, so an
/// upsert can increment without overflow.
pub open spec fn counts_below_max(s: Seq<EntryView>) -> bool {
    forall|i: int| 0 <= i < s.len() ==> (#[trigger] s[i]).count < u64::MAX
}

/// Well-formed table: topics are pairwise distinct and every count is at
/// least one.
pub open spec fn wf_table(s: Seq<EntryView>) -> bool {
    &&& forall|i: int, j: int| 0 <= i < j < s.len() ==> s[i].topic != s[j].topic
    &&& forall|i: int| 0 <= i < s.len() ==> s[i].count >= 1
}

/// The table that results from processing a whole message sequence in order,
/// starting from an empty table.
pub open spec fn table_of(msgs: Seq<MessageView>) -> Seq<EntryView>
    decreases msgs.len(),
{
    if msgs.len() == 0 {
        Seq::empty()
    } else {
        upsert_spec(table_of(msgs.drop_last()), msgs.last())
    }
}

/// How many messages of `msgs` bear topic `t`.
pub open spec fn count_topic(msgs: Seq<MessageView>, t: Seq<char>) -> int
    decreases msgs.len(),
{
    if msgs.len() == 0 {
        0
    } else {
        count_topic(msgs.drop_last(), t) + if msgs.last().topic == t {
            1int
        } else {
            0int
        }
    }
}

pub proof fn lemma_count_topic_nonneg(msgs: Seq<MessageView>, t: Seq<char>)
    ensures
        count_topic(msgs, t) >= 0,
    decreases msgs.len(),
{
    if msgs.len() > 0 {
        lemma_count_topic_nonneg(msgs.drop_last(), t);
    }
}

/// An upsert keeps a table well formed: it never introduces a duplicate topic
/// and never produces a count below one.
pub proof fn lemma_upsert_wf(s: Seq<EntryView>, m: MessageView)
    requires
        wf_table(s),
    ensures
        wf_table(upsert_spec(s, m)),
{
    lemma_find_topic(s, m.topic);
    let i = find_topic(s, m.topic);
    let r = upsert_spec(s, m);
    if i == -1 {
        assert(forall|j: int| 0 <= j < s.len() ==> r[j] == s[j]);
        assert(r[s.len() as int].topic == m.topic);
    } else {
        assert(forall|j: int| 0 <= j < s.len() && j != i ==> r[j] == s[j]);
        assert(r[i].topic == s[i].topic);
        assert(r[i].count == s[i].count + 1);
    }
}

/// Update-in-place: a message for a topic that the table already holds leaves
/// every other entry untouched, keeps the matching entry at its position,
/// overwrites its value and time, and increments its count by exactly one.
pub proof fn lemma_update_in_place(s: Seq<EntryView>, m: MessageView)
    requires
        has_topic(s, m.topic),
    ensures
        ({
            let i = find_topic(s, m.topic);
            let r = upsert_spec(s, m);
            &&& r.len() == s.len()
            &&& r[i].topic == s[i].topic
            &&& r[i].value == m.value
            &&& r[i].time == m.time
            &&& r[i].count == s[i].count + 1
            &&& forall|j: int| 0 <= j < s.len() && j != i ==> r[j] == s[j]
        }),
{
    lemma_find_topic(s, m.topic);
}

/// Dedup: after processing any message sequence, the table is well formed --
/// one entry per distinct topic -- a topic appears in the table exactly when
/// some message bore it, and that entry's count equals the number of messages
/// bearing the topic.
pub proof fn lemma_dedup(msgs: Seq<MessageView>, t: Seq<char>)
    ensures
        wf_table(table_of(msgs)),
        has_topic(table_of(msgs), t) <==> count_topic(msgs, t) >= 1,
        has_topic(table_of(msgs), t) ==> table_of(msgs)[find_topic(table_of(msgs), t)].count
            == count_topic(msgs, t),
    decreases msgs.len(),
{
    let r = table_of(msgs);
    if msgs.len() == 0 {
        lemma_find_topic(r, t);
    } else {
        let rest = msgs.drop_last();
        let m = msgs.last();
        let prev = table_of(rest);
        lemma_dedup(rest, t);
        lemma_dedup(rest, m.topic);
        lemma_count_topic_nonneg(rest, t);
        lemma_upsert_wf(prev, m);
        lemma_find_topic(prev, m.topic);
        lemma_find_topic(prev, t);
        let ip = find_topic(prev, m.topic);
        if ip == -1 {
            // a fresh entry is appended at the end
            assert(forall|j: int| 0 <= j < prev.len() ==> r[j] == prev[j]);
            if m.topic == t {
                assert(count_topic(rest, t) == 0);
                lemma_find_topic_at(r, t, prev.len() as int);
                assert(r[prev.len() as int].count == 1);
            } else {
                if has_topic(prev, t) {
                    let i0 = find_topic(prev, t);
                    lemma_find_topic_at(r, t, i0);
                } else {
                    assert(forall|j: int| 0 <= j < r.len() ==> r[j].topic != t);
                    lemma_find_topic(r, t);
                }
            }
        } else {
            // the entry at ip is updated in place
            assert(forall|j: int| 0 <= j < prev.len() && j != ip ==> r[j] == prev[j]);
            assert(r[ip].topic == prev[ip].topic);
            if m.topic == t {
                lemma_find_topic_at(r, t, ip);
                assert(r[ip].count == prev[ip].count + 1);
            } else {
                if has_topic(prev, t) {
                    let i0 = find_topic(prev, t);
                    assert(prev[i0].topic == t);
                    assert(i0 != ip);
                    lemma_find_topic_at(r, t, i0);
                } else {
                    assert(forall|j: int| 0 <= j < r.len() ==> r[j].topic != t);
                    lemma_find_topic(r, t);
                }
            }
        }
    }
}

/// The aggregation table. Owned by the render loop alone; its abstract value
/// is the sequence of entry views in backing order.
pub struct EntryList {
    pub entries: Vec<Entry>,
}

/// The entry views of a backing vector, in order.
pub open spec fn entry_views(s: Seq<Entry>) -> Seq<EntryView> {
    s.map_values(|e: Entry| e@)
}

impl View for EntryList {
    type V = Seq<EntryView>;

    open spec fn view(&self) -> Seq<EntryView> {
        entry_views(self.entries@)
    }
}

impl EntryList {
    pub fn new() -> (r: EntryList)
        ensures
            r@ == Seq::<EntryView>::empty(),
    {
        let r = EntryList { entries: Vec::new() };
        proof {
            assert(r@ =~= Seq::<EntryView>::empty());
        }
        r
    }

    /// Upsert: scan for the first entry with the message's topic; update it in
    /// place if found, else append a fresh entry. The bound on the counts is
    /// forced by the machine word that stores them.
    pub fn add(&mut self, m: &PublishMessage)
        requires
            counts_below_max(old(self)@),
        ensures
            final(self)@ == upsert_spec(old(self)@, m@),
    {
        let ghost s0 = self@;
        let n = self.entries.len();
        let mut i: usize = 0;
        while i < n
            invariant
                n == self.entries@.len(),
                i <= n,
                self@ == s0,
                *self == *old(self),
                counts_below_max(s0),
                forall|j: int| 0 <= j < i ==> s0[j].topic != m@.topic,
            decreases n - i,
        {
            if self.entries[i].topic == m.topic {
                proof {
                    lemma_find_topic_at(s0, m@.topic, i as int);
                    assert(s0[i as int].count < u64::MAX);
                    assert(s0[i as int] == self.entries@[i as int]@);
                }
                let entry = &mut self.entries[i];
                entry.update(m);
                proof {
                    assert(self@ =~= upsert_spec(s0, m@));
                }
                return ;
            }
            i = i + 1;
        }
        proof {
            lemma_find_topic(s0, m@.topic);
        }
        self.entries.push(Entry::new(m.topic.clone(), m.value.clone(), m.time));
        proof {
            assert(self@ =~= upsert_spec(s0, m@));
        }
    }
}

} // verus!
