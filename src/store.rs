//! The event and attendance store: events keyed by id, and at most one
//! answer per (event, user) pair, toggled on each press.
use crate::event::{AttendanceStatus, EventDraft, EventRecord};
use vstd::prelude::*;

verus! {

/// One user's answer to one event.
#[derive(Debug, Clone, Copy, PartialEq, Eq, Structural)]
pub struct AttendanceRecord {
    pub event_id: i64,
    pub user_id: i64,
    pub status: AttendanceStatus,
}

/// What a press of an answer button did to the stored answers.
#[derive(Debug, Clone, Copy, PartialEq, Eq, Structural)]
pub enum AttendanceWrite {
    /// No answer was stored: the new one was added.
    Inserted,
    /// Another answer was stored: it was replaced.
    Updated,
    /// The same answer was stored: it was removed.
    Removed,
}

/// The contents of a store.
pub struct StoreView {
    pub events: Seq<EventRecord>,
    pub attendance: Seq<AttendanceRecord>,
    pub next_id: i64,
}

pub open spec fn is_pair(r: AttendanceRecord, event_id: i64, user_id: i64) -> bool {
    r.event_id == event_id && r.user_id == user_id
}

/// The events other than the one with `id`, in their order.
pub open spec fn events_without(s: Seq<EventRecord>, id: i64) -> Seq<EventRecord>
    decreases s.len(),
{
    if s.len() == 0 {
        s
    } else if s[0].id == id {
        events_without(s.drop_first(), id)
    } else {
        seq![s[0]] + events_without(s.drop_first(), id)
    }
}

/// The answers to events other than `id`, in their order.
pub open spec fn attendance_without(s: Seq<AttendanceRecord>, id: i64) -> Seq<AttendanceRecord>
    decreases s.len(),
{
    if s.len() == 0 {
        s
    } else if s[0].event_id == id {
        attendance_without(s.drop_first(), id)
    } else {
        seq![s[0]] + attendance_without(s.drop_first(), id)
    }
}

/// The answers to event `id`, in the order they were first given.
pub open spec fn answers_to(s: Seq<AttendanceRecord>, id: i64) -> Seq<(i64, AttendanceStatus)>
    decreases s.len(),
{
    if s.len() == 0 {
        Seq::empty()
    } else if s.last().event_id == id {
        answers_to(s.drop_last(), id).push((s.last().user_id, s.last().status))
    } else {
        answers_to(s.drop_last(), id)
    }
}

/// The ids of the events that `user_id` created, in creation order.
pub open spec fn ids_created_by(s: Seq<EventRecord>, user_id: i64) -> Seq<i64>
    decreases s.len(),
{
    if s.len() == 0 {
        Seq::empty()
    } else if s.last().creator == user_id {
        ids_created_by(s.drop_last(), user_id).push(s.last().id)
    } else {
        ids_created_by(s.drop_last(), user_id)
    }
}

impl StoreView {
    /// Event ids are unique, positive and below the next id; answers are
    /// unique per (event, user) pair and refer to stored events.
    pub open spec fn wf(self) -> bool {
        &&& self.next_id >= 1
        &&& forall|i: int|
            0 <= i < self.events.len() ==> 0 < #[trigger] self.events[i].id < self.next_id
        &&& forall|i: int, j: int|
            0 <= i < self.events.len() && 0 <= j < self.events.len() && i != j ==> (
            #[trigger] self.events[i]).id != (#[trigger] self.events[j]).id
        &&& forall|i: int, j: int|
            0 <= i < self.attendance.len() && 0 <= j < self.attendance.len() && i != j ==> !is_pair(
                #[trigger] self.attendance[i],
                (#[trigger] self.attendance[j]).event_id,
                self.attendance[j].user_id,
            )
        &&& forall|i: int|
            0 <= i < self.attendance.len() ==> self.has_event(
                (#[trigger] self.attendance[i]).event_id,
            )
    }

    pub open spec fn has_event(self, id: i64) -> bool {
        exists|i: int| 0 <= i < self.events.len() && (#[trigger] self.events[i]).id == id
    }

    pub open spec fn event_index(self, id: i64) -> int {
        choose|i: int| 0 <= i < self.events.len() && (#[trigger] self.events[i]).id == id
    }

    /// The stored event with `id`, where there is one.
    pub open spec fn event(self, id: i64) -> EventRecord {
        self.events[self.event_index(id)]
    }

    pub open spec fn has_record(self, event_id: i64, user_id: i64) -> bool {
        exists|i: int|
            0 <= i < self.attendance.len() && is_pair(#[trigger] self.attendance[i], event_id, user_id)
    }

    pub open spec fn record_index(self, event_id: i64, user_id: i64) -> int {
        choose|i: int|
            0 <= i < self.attendance.len() && is_pair(#[trigger] self.attendance[i], event_id, user_id)
    }

    /// The stored answer of `user_id` to `event_id`, if any.
    pub open spec fn status_of(self, event_id: i64, user_id: i64) -> Option<AttendanceStatus> {
        if self.has_record(event_id, user_id) {
            Some(self.attendance[self.record_index(event_id, user_id)].status)
        } else {
            None
        }
    }

    /// The store after `user_id` presses the `status` button of `event_id`:
    /// a first answer is added, a different one replaces the stored one, and
    /// the same one again removes it.
    pub open spec fn toggled(self, event_id: i64, user_id: i64, status: AttendanceStatus) -> StoreView {
        let a = self.attendance;
        let rec = AttendanceRecord { event_id, user_id, status };
        let i = self.record_index(event_id, user_id);
        StoreView {
            events: self.events,
            attendance: if !self.has_record(event_id, user_id) {
                a.push(rec)
            } else if a[i].status == status {
                a.remove(i)
            } else {
                a.update(i, rec)
            },
            next_id: self.next_id,
        }
    }

    /// What a press of the `status` button of `event_id` by `user_id` does
    /// to the stored answers.
    pub open spec fn write_for(self, event_id: i64, user_id: i64, status: AttendanceStatus) -> AttendanceWrite {
        match self.status_of(event_id, user_id) {
            None => AttendanceWrite::Inserted,
            Some(s) => if s == status {
                AttendanceWrite::Removed
            } else {
                AttendanceWrite::Updated
            },
        }
    }

    /// The store after deleting event `id` with all answers to it.
    pub open spec fn without_event(self, id: i64) -> StoreView {
        StoreView {
            events: events_without(self.events, id),
            attendance: attendance_without(self.attendance, id),
            next_id: self.next_id,
        }
    }
}

proof fn lemma_record_index_unique(v: StoreView, i: int)
    requires
        v.wf(),
        0 <= i < v.attendance.len(),
    ensures
        v.has_record(v.attendance[i].event_id, v.attendance[i].user_id),
        v.record_index(v.attendance[i].event_id, v.attendance[i].user_id) == i,
{
    let e = v.attendance[i].event_id;
    let u = v.attendance[i].user_id;
    assert(is_pair(v.attendance[i], e, u));
    let k = v.record_index(e, u);
    assert(is_pair(v.attendance[k], e, u));
}

proof fn lemma_event_index_unique(v: StoreView, i: int)
    requires
        v.wf(),
        0 <= i < v.events.len(),
    ensures
        v.has_event(v.events[i].id),
        v.event_index(v.events[i].id) == i,
{
    let id = v.events[i].id;
    assert(v.events[i].id == id);
    let k = v.event_index(id);
    assert(v.events[k].id == id);
}

/// A press of an answer button keeps the store well formed and leaves the
/// pressed status stored, unless it was stored already, in which case no
/// answer is left.
pub proof fn lemma_toggled(v: StoreView, event_id: i64, user_id: i64, status: AttendanceStatus)
    requires
        v.wf(),
        v.has_event(event_id),
    ensures
        v.toggled(event_id, user_id, status).wf(),
        v.toggled(event_id, user_id, status).status_of(event_id, user_id) == if v.status_of(
            event_id,
            user_id,
        ) == Some(status) {
            None::<AttendanceStatus>
        } else {
            Some(status)
        },
{
    let t = v.toggled(event_id, user_id, status);
    let a = v.attendance;
    let b = t.attendance;
    let rec = AttendanceRecord { event_id, user_id, status };
    assert(t.events == v.events);
    assert forall|x: i64| v.has_event(x) implies t.has_event(x) by {
        let w = choose|w: int| 0 <= w < v.events.len() && (#[trigger] v.events[w]).id == x;
        assert(t.events[w].id == x);
    }
    if !v.has_record(event_id, user_id) {
        assert forall|i: int, j: int|
            0 <= i < b.len() && 0 <= j < b.len() && i != j implies !is_pair(
                #[trigger] b[i],
                (#[trigger] b[j]).event_id,
                b[j].user_id,
            ) by {
            if i == a.len() {
                assert(!is_pair(a[j], event_id, user_id));
            } else if j == a.len() {
                assert(!is_pair(a[i], event_id, user_id));
            }
        }
        assert forall|i: int| 0 <= i < b.len() implies t.has_event((#[trigger] b[i]).event_id) by {
            if i < a.len() {
                assert(v.has_event(a[i].event_id));
            } else {
                assert(b[i] == rec);
            }
        }
        assert(b[a.len() as int] == rec);
        lemma_record_index_unique(t, a.len() as int);
    } else {
        let k = v.record_index(event_id, user_id);
        lemma_record_index_unique(v, k);
        if a[k].status == status {
            assert forall|i: int| 0 <= i < b.len() implies t.has_event((#[trigger] b[i]).event_id) by {
                if i < k {
                    assert(b[i] == a[i]);
                    assert(v.has_event(a[i].event_id));
                } else {
                    assert(b[i] == a[i + 1]);
                    assert(v.has_event(a[i + 1].event_id));
                }
            }
            assert forall|i: int, j: int|
                0 <= i < b.len() && 0 <= j < b.len() && i != j implies !is_pair(
                    #[trigger] b[i],
                    (#[trigger] b[j]).event_id,
                    b[j].user_id,
                ) by {
                let ii = if i < k { i } else { i + 1 };
                let jj = if j < k { j } else { j + 1 };
                assert(b[i] == a[ii]);
                assert(b[j] == a[jj]);
            }
            if t.has_record(event_id, user_id) {
                let m = t.record_index(event_id, user_id);
                let mm = if m < k { m } else { m + 1 };
                assert(b[m] == a[mm]);
            }
        } else {
            assert forall|i: int| 0 <= i < b.len() implies t.has_event((#[trigger] b[i]).event_id) by {
                assert(v.has_event(a[i].event_id));
            }
            assert forall|i: int, j: int|
                0 <= i < b.len() && 0 <= j < b.len() && i != j implies !is_pair(
                    #[trigger] b[i],
                    (#[trigger] b[j]).event_id,
                    b[j].user_id,
                ) by {
                assert(is_pair(a[k], event_id, user_id));
            }
            lemma_record_index_unique(t, k);
        }
    }
}

/// Pressing a button that is not the stored answer, then pressing it again,
/// leaves no answer; where there was none before, the store is as it was.
pub proof fn lemma_press_twice(v: StoreView, event_id: i64, user_id: i64, status: AttendanceStatus)
    requires
        v.wf(),
        v.has_event(event_id),
        v.status_of(event_id, user_id) != Some(status),
    ensures
        v.toggled(event_id, user_id, status).toggled(event_id, user_id, status).status_of(
            event_id,
            user_id,
        ) is None,
        v.status_of(event_id, user_id) is None ==> v.toggled(event_id, user_id, status).toggled(
            event_id,
            user_id,
            status,
        ) == v,
{
    let t1 = v.toggled(event_id, user_id, status);
    lemma_toggled(v, event_id, user_id, status);
    lemma_toggled(t1, event_id, user_id, status);
    if v.status_of(event_id, user_id) is None {
        let t2 = t1.toggled(event_id, user_id, status);
        lemma_record_index_unique(t1, v.attendance.len() as int);
        assert(t2.attendance =~= v.attendance);
    }
}

/// Pressing one answer and then the other leaves exactly one stored answer:
/// the second.
pub proof fn lemma_press_then_other(
    v: StoreView,
    event_id: i64,
    user_id: i64,
    first: AttendanceStatus,
    second: AttendanceStatus,
)
    requires
        v.wf(),
        v.has_event(event_id),
        first != second,
    ensures
        v.toggled(event_id, user_id, first).toggled(event_id, user_id, second).wf(),
        v.toggled(event_id, user_id, first).toggled(event_id, user_id, second).status_of(
            event_id,
            user_id,
        ) == Some(second),
{
    let t1 = v.toggled(event_id, user_id, first);
    lemma_toggled(v, event_id, user_id, first);
    lemma_toggled(t1, event_id, user_id, second);
}


pub open spec fn ids_unique(s: Seq<EventRecord>) -> bool {
    forall|i: int, j: int|
        0 <= i < s.len() && 0 <= j < s.len() && i != j ==> (#[trigger] s[i]).id != (#[trigger] s[j]).id
}

pub open spec fn pairs_unique(s: Seq<AttendanceRecord>) -> bool {
    forall|i: int, j: int|
        0 <= i < s.len() && 0 <= j < s.len() && i != j ==> !is_pair(
            #[trigger] s[i],
            (#[trigger] s[j]).event_id,
            s[j].user_id,
        )
}

proof fn lemma_events_without(s: Seq<EventRecord>, id: i64)
    ensures
        forall|k: int|
            0 <= k < events_without(s, id).len() ==> (#[trigger] events_without(s, id)[k]).id != id
                && s.contains(events_without(s, id)[k]),
        forall|j: int|
            0 <= j < s.len() && (#[trigger] s[j]).id != id ==> events_without(s, id).contains(s[j]),
        ids_unique(s) ==> ids_unique(events_without(s, id)),
    decreases s.len(),
{
    if s.len() > 0 {
        let t = s.drop_first();
        let rt = events_without(t, id);
        let r = events_without(s, id);
        lemma_events_without(t, id);
        assert forall|k: int| 0 <= k < r.len() implies (#[trigger] r[k]).id != id && s.contains(r[k]) by {
            if s[0].id == id {
                assert(t.contains(rt[k]));
                let w = choose|w: int| 0 <= w < t.len() && t[w] == rt[k];
                assert(s[w + 1] == t[w]);
            } else if k == 0 {
                assert(s[0] == r[0]);
            } else {
                assert(r[k] == rt[k - 1]);
                assert(t.contains(rt[k - 1]));
                let w = choose|w: int| 0 <= w < t.len() && t[w] == rt[k - 1];
                assert(s[w + 1] == t[w]);
            }
        }
        assert forall|j: int| 0 <= j < s.len() && (#[trigger] s[j]).id != id implies r.contains(s[j]) by {
            if j == 0 {
                assert(r[0] == s[0]);
            } else {
                assert(t[j - 1] == s[j]);
                assert(rt.contains(t[j - 1]));
                let w = choose|w: int| 0 <= w < rt.len() && rt[w] == t[j - 1];
                if s[0].id == id {
                    assert(r[w] == rt[w]);
                } else {
                    assert(r[w + 1] == rt[w]);
                }
            }
        }
        if ids_unique(s) {
            assert(ids_unique(t)) by {
                assert forall|i: int, j: int|
                    0 <= i < t.len() && 0 <= j < t.len() && i != j implies (#[trigger] t[i]).id != (
                    #[trigger] t[j]).id by {
                    assert(t[i] == s[i + 1]);
                    assert(t[j] == s[j + 1]);
                }
            }
            if s[0].id != id {
                assert forall|i: int, j: int|
                    0 <= i < r.len() && 0 <= j < r.len() && i != j implies (#[trigger] r[i]).id != (
                    #[trigger] r[j]).id by {
                    if i > 0 && j > 0 {
                        assert(r[i] == rt[i - 1]);
                        assert(r[j] == rt[j - 1]);
                    } else {
                        let k = if i == 0 { j } else { i };
                        assert(r[k] == rt[k - 1]);
                        assert(t.contains(rt[k - 1]));
                        let w = choose|w: int| 0 <= w < t.len() && t[w] == rt[k - 1];
                        assert(s[w + 1] == t[w]);
                    }
                }
            }
        }
    }
}

proof fn lemma_attendance_without(s: Seq<AttendanceRecord>, id: i64)
    ensures
        forall|k: int|
            0 <= k < attendance_without(s, id).len() ==> (#[trigger] attendance_without(
                s,
                id,
            )[k]).event_id != id && s.contains(attendance_without(s, id)[k]),
        pairs_unique(s) ==> pairs_unique(attendance_without(s, id)),
    decreases s.len(),
{
    if s.len() > 0 {
        let t = s.drop_first();
        let rt = attendance_without(t, id);
        let r = attendance_without(s, id);
        lemma_attendance_without(t, id);
        assert forall|k: int| 0 <= k < r.len() implies (#[trigger] r[k]).event_id != id && s.contains(
            r[k],
        ) by {
            if s[0].event_id == id {
                assert(t.contains(rt[k]));
                let w = choose|w: int| 0 <= w < t.len() && t[w] == rt[k];
                assert(s[w + 1] == t[w]);
            } else if k == 0 {
                assert(s[0] == r[0]);
            } else {
                assert(r[k] == rt[k - 1]);
                assert(t.contains(rt[k - 1]));
                let w = choose|w: int| 0 <= w < t.len() && t[w] == rt[k - 1];
                assert(s[w + 1] == t[w]);
            }
        }
        if pairs_unique(s) {
            assert(pairs_unique(t)) by {
                assert forall|i: int, j: int|
                    0 <= i < t.len() && 0 <= j < t.len() && i != j implies !is_pair(
                        #[trigger] t[i],
                        (#[trigger] t[j]).event_id,
                        t[j].user_id,
                    ) by {
                    assert(t[i] == s[i + 1]);
                    assert(t[j] == s[j + 1]);
                }
            }
            if s[0].event_id != id {
                assert forall|i: int, j: int|
                    0 <= i < r.len() && 0 <= j < r.len() && i != j implies !is_pair(
                        #[trigger] r[i],
                        (#[trigger] r[j]).event_id,
                        r[j].user_id,
                    ) by {
                    if i > 0 && j > 0 {
                        assert(r[i] == rt[i - 1]);
                        assert(r[j] == rt[j - 1]);
                    } else {
                        let k = if i == 0 { j } else { i };
                        assert(r[k] == rt[k - 1]);
                        assert(t.contains(rt[k - 1]));
                        let w = choose|w: int| 0 <= w < t.len() && t[w] == rt[k - 1];
                        assert(s[w + 1] == t[w]);
                    }
                }
            }
        }
    }
}

/// Deleting an event keeps the store well formed and leaves neither the
/// event nor any answer to it; every other event stays.
pub proof fn lemma_delete_removes(v: StoreView, id: i64)
    requires
        v.wf(),
    ensures
        v.without_event(id).wf(),
        !v.without_event(id).has_event(id),
        forall|k: int|
            0 <= k < v.without_event(id).attendance.len() ==> (#[trigger] v.without_event(
                id,
            ).attendance[k]).event_id != id,
        forall|x: i64| x != id ==> (v.without_event(id).has_event(x) <==> v.has_event(x)),
{
    let w = v.without_event(id);
    lemma_events_without(v.events, id);
    lemma_attendance_without(v.attendance, id);
    assert(ids_unique(v.events));
    assert(pairs_unique(v.attendance));
    assert forall|x: i64| x != id implies (w.has_event(x) <==> v.has_event(x)) by {
        if w.has_event(x) {
            let k = choose|k: int| 0 <= k < w.events.len() && (#[trigger] w.events[k]).id == x;
            assert(v.events.contains(w.events[k]));
        }
        if v.has_event(x) {
            let j = choose|j: int| 0 <= j < v.events.len() && (#[trigger] v.events[j]).id == x;
            assert(w.events.contains(v.events[j]));
        }
    }
    assert forall|i: int| 0 <= i < w.events.len() implies 0 < #[trigger] w.events[i].id < w.next_id by {
        assert(v.events.contains(w.events[i]));
    }
    assert forall|i: int| 0 <= i < w.attendance.len() implies w.has_event(
        (#[trigger] w.attendance[i]).event_id,
    ) by {
        assert(v.attendance.contains(w.attendance[i]));
        let j = choose|j: int| 0 <= j < v.attendance.len() && v.attendance[j] == w.attendance[i];
        assert(v.has_event(v.attendance[j].event_id));
    }
    if w.has_event(id) {
        let k = choose|k: int| 0 <= k < w.events.len() && (#[trigger] w.events[k]).id == id;
    }
}


/// Strict order of texts, character by character, a proper prefix first.
pub open spec fn text_lt(a: Seq<char>, b: Seq<char>) -> bool
    decreases a.len(),
{
    if a.len() == 0 {
        b.len() > 0
    } else if b.len() == 0 {
        false
    } else if a[0] != b[0] {
        a[0] < b[0]
    } else {
        text_lt(a.drop_first(), b.drop_first())
    }
}

/// No text comes before itself, and of two texts at most one comes first.
pub proof fn lemma_text_lt_asymmetric(a: Seq<char>, b: Seq<char>)
    ensures
        text_lt(a, b) ==> !text_lt(b, a),
    decreases a.len(),
{
    if a.len() > 0 && b.len() > 0 && a[0] == b[0] {
        lemma_text_lt_asymmetric(a.drop_first(), b.drop_first());
    }
}

/// Of two different texts, one comes first.
pub proof fn lemma_text_lt_total(a: Seq<char>, b: Seq<char>)
    ensures
        a != b ==> text_lt(a, b) || text_lt(b, a),
    decreases a.len(),
{
    if a.len() > 0 && b.len() > 0 {
        if a[0] == b[0] {
            lemma_text_lt_total(a.drop_first(), b.drop_first());
            if a.drop_first() == b.drop_first() {
                assert(a =~= seq![a[0]] + a.drop_first());
                assert(b =~= seq![b[0]] + b.drop_first());
            }
        }
    } else if a.len() == 0 && b.len() == 0 {
        assert(a =~= b);
    }
}

/// The order of texts is transitive.
pub proof fn lemma_text_lt_transitive(a: Seq<char>, b: Seq<char>, c: Seq<char>)
    ensures
        text_lt(a, b) && text_lt(b, c) ==> text_lt(a, c),
    decreases a.len(),
{
    if a.len() > 0 && b.len() > 0 && c.len() > 0 && a[0] == b[0] && b[0] == c[0] {
        lemma_text_lt_transitive(a.drop_first(), b.drop_first(), c.drop_first());
    }
}

/// `a` comes before `b` or is `b`.
pub open spec fn text_le(a: Seq<char>, b: Seq<char>) -> bool {
    !text_lt(b, a)
}

proof fn lemma_text_le_transitive(a: Seq<char>, b: Seq<char>, c: Seq<char>)
    ensures
        text_le(a, b) && text_le(b, c) ==> text_le(a, c),
{
    lemma_text_lt_total(a, b);
    lemma_text_lt_total(b, c);
    lemma_text_lt_transitive(a, b, c);
    lemma_text_lt_transitive(c, a, b);
    lemma_text_lt_transitive(b, c, a);
    lemma_text_lt_asymmetric(a, a);
}

proof fn lemma_text_le_antisymmetric(a: Seq<char>, b: Seq<char>)
    ensures
        text_le(a, b) && text_le(b, a) ==> a == b,
{
    lemma_text_lt_total(a, b);
}

/// Ids whose keys never decrease from one to the next.
pub open spec fn keys_sorted(s: Seq<i64>, key: spec_fn(i64) -> Seq<char>) -> bool {
    forall|i: int, j: int| 0 <= i <= j < s.len() ==> text_le(key(#[trigger] s[i]), key(#[trigger] s[j]))
}

proof fn lemma_steps_chain(s: Seq<i64>, key: spec_fn(i64) -> Seq<char>, i: int, j: int)
    requires
        0 <= i <= j < s.len(),
        forall|k: int| 0 <= k < s.len() - 1 ==> text_le(key(#[trigger] s[k]), key(s[k + 1])),
    ensures
        text_le(key(s[i]), key(s[j])),
    decreases j - i,
{
    lemma_text_lt_asymmetric(key(s[i]), key(s[i]));
    if i < j {
        lemma_steps_chain(s, key, i + 1, j);
        assert(text_le(key(s[i]), key(s[i + 1])));
        lemma_text_le_transitive(key(s[i]), key(s[i + 1]), key(s[j]));
    }
}

proof fn lemma_keys_sorted_from_steps(s: Seq<i64>, key: spec_fn(i64) -> Seq<char>)
    requires
        forall|k: int| 0 <= k < s.len() - 1 ==> text_le(key(#[trigger] s[k]), key(s[k + 1])),
    ensures
        keys_sorted(s, key),
{
    assert forall|i: int, j: int| 0 <= i <= j < s.len() implies text_le(key(#[trigger] s[i]), key(#[trigger] s[j])) by {
        lemma_steps_chain(s, key, i, j);
    }
}

/// Two key-sorted lists of the same ids, each without repeats, have the same
/// sequence of keys.
proof fn lemma_sorted_same_keys(a: Seq<i64>, b: Seq<i64>, key: spec_fn(i64) -> Seq<char>)
    requires
        a.no_duplicates(),
        b.no_duplicates(),
        forall|x: i64| a.contains(x) <==> b.contains(x),
        keys_sorted(a, key),
        keys_sorted(b, key),
    ensures
        a.len() == b.len(),
        forall|k: int| 0 <= k < a.len() ==> key(#[trigger] a[k]) == key(b[k]),
    decreases a.len(),
{
    if a.len() == 0 {
        if b.len() > 0 {
            assert(b.contains(b[0]));
        }
    } else {
        let x0 = a[0];
        assert(a.contains(x0));
        let j = choose|j: int| 0 <= j < b.len() && b[j] == x0;
        assert(b.contains(b[0]));
        let i = choose|i: int| 0 <= i < a.len() && a[i] == b[0];
        assert(text_le(key(a[0]), key(a[i])));
        assert(text_le(key(b[0]), key(b[j])));
        lemma_text_le_antisymmetric(key(a[0]), key(b[0]));
        assert forall|k: int| 0 <= k <= j implies #[trigger] key(b[k]) == key(b[0]) by {
            assert(text_le(key(b[0]), key(b[k])));
            assert(text_le(key(b[k]), key(b[j])));
            lemma_text_le_antisymmetric(key(b[k]), key(b[0]));
        }
        let a2 = a.drop_first();
        let b2 = b.remove(j);
        assert forall|x: i64| a2.contains(x) <==> b2.contains(x) by {
            if a2.contains(x) {
                let w = choose|w: int| 0 <= w < a2.len() && a2[w] == x;
                assert(a[w + 1] == x);
                assert(x != x0);
                assert(a.contains(x));
                let u = choose|u: int| 0 <= u < b.len() && b[u] == x;
                assert(u != j);
                if u < j {
                    assert(b2[u] == x);
                } else {
                    assert(b2[u - 1] == x);
                }
            }
            if b2.contains(x) {
                let w = choose|w: int| 0 <= w < b2.len() && b2[w] == x;
                let u = if w < j { w } else { w + 1 };
                assert(b[u] == x);
                assert(u != j);
                assert(x != x0);
                assert(b.contains(x));
                let t = choose|t: int| 0 <= t < a.len() && a[t] == x;
                assert(t != 0);
                assert(a2[t - 1] == x);
            }
        }
        assert(a2.no_duplicates());
        assert forall|p: int, q: int| 0 <= p < b2.len() && 0 <= q < b2.len() && p != q implies b2[p] != b2[q] by {
            let pp = if p < j { p } else { p + 1 };
            let qq = if q < j { q } else { q + 1 };
            assert(b2[p] == b[pp] && b2[q] == b[qq]);
        }
        assert(keys_sorted(a2, key)) by {
            assert forall|p: int, q: int| 0 <= p <= q < a2.len() implies text_le(key(#[trigger] a2[p]), key(#[trigger] a2[q])) by {
                assert(a2[p] == a[p + 1] && a2[q] == a[q + 1]);
            }
        }
        assert(keys_sorted(b2, key)) by {
            assert forall|p: int, q: int| 0 <= p <= q < b2.len() implies text_le(key(#[trigger] b2[p]), key(#[trigger] b2[q])) by {
                let pp = if p < j { p } else { p + 1 };
                let qq = if q < j { q } else { q + 1 };
                assert(b2[p] == b[pp] && b2[q] == b[qq]);
            }
        }
        lemma_sorted_same_keys(a2, b2, key);
        assert forall|k: int| 0 <= k < a.len() implies key(#[trigger] a[k]) == key(b[k]) by {
            if k > 0 {
                assert(a[k] == a2[k - 1]);
                assert(key(a2[k - 1]) == key(b2[k - 1]));
                if k - 1 < j {
                    assert(b2[k - 1] == b[k - 1]);
                    assert(key(b[k - 1]) == key(b[0]));
                    assert(key(b[k]) == key(b[0]));
                } else {
                    assert(b2[k - 1] == b[k]);
                }
            }
        }
    }
}

/// What `events_in_chat` promises of its list `r`.
pub open spec fn listing_of(v: StoreView, chat_id: i64, r: Seq<i64>) -> bool {
    &&& r.no_duplicates()
    &&& forall|x: i64| r.contains(x) <==> (v.has_event(x) && v.event(x).chat_id == chat_id)
    &&& forall|k: int|
        0 <= k < r.len() - 1 ==> !text_lt(v.event(r[k + 1]).event_date@, v.event(#[trigger] r[k]).event_date@)
}

/// Listing the events of a conversation does not depend on the order in
/// which they were added: two stores that hold the same events of that
/// conversation list the same sequence of dates, and, where no two of those
/// events share a date, the same sequence of events.
pub proof fn lemma_listing_independent_of_order(
    v1: StoreView,
    v2: StoreView,
    chat_id: i64,
    r1: Seq<i64>,
    r2: Seq<i64>,
)
    requires
        v1.wf(),
        v2.wf(),
        forall|x: i64|
            (v1.has_event(x) && v1.event(x).chat_id == chat_id) <==> (v2.has_event(x) && v2.event(
                x,
            ).chat_id == chat_id),
        forall|x: i64|
            v1.has_event(x) && v1.event(x).chat_id == chat_id ==> #[trigger] v1.event(x).event_date@
                == v2.event(x).event_date@,
        listing_of(v1, chat_id, r1),
        listing_of(v2, chat_id, r2),
    ensures
        r1.len() == r2.len(),
        forall|k: int|
            0 <= k < r1.len() ==> #[trigger] v1.event(r1[k]).event_date@ == v2.event(r2[k]).event_date@,
        (forall|x: i64, y: i64|
            v1.has_event(x) && v1.event(x).chat_id == chat_id && v1.has_event(y) && v1.event(y).chat_id
                == chat_id && x != y ==> #[trigger] v1.event(x).event_date@ != #[trigger] v1.event(
                y,
            ).event_date@) ==> r1 == r2,
{
    let key = |x: i64| v1.event(x).event_date@;
    assert forall|x: i64| r1.contains(x) <==> r2.contains(x) by {}
    lemma_keys_sorted_from_steps(r1, key);
    assert forall|k: int| 0 <= k < r2.len() - 1 implies text_le(key(#[trigger] r2[k]), key(r2[k + 1])) by {
        assert(r2.contains(r2[k]));
        assert(r2.contains(r2[k + 1]));
    }
    lemma_keys_sorted_from_steps(r2, key);
    lemma_sorted_same_keys(r1, r2, key);
    assert forall|k: int| 0 <= k < r1.len() implies #[trigger] v1.event(r1[k]).event_date@ == v2.event(
        r2[k],
    ).event_date@ by {
        assert(key(r1[k]) == key(r2[k]));
        assert(r2.contains(r2[k]));
    }
    if forall|x: i64, y: i64|
        v1.has_event(x) && v1.event(x).chat_id == chat_id && v1.has_event(y) && v1.event(y).chat_id
            == chat_id && x != y ==> #[trigger] v1.event(x).event_date@ != #[trigger] v1.event(
            y,
        ).event_date@ {
        assert forall|k: int| 0 <= k < r1.len() implies r1[k] == r2[k] by {
            assert(key(r1[k]) == key(r2[k]));
            assert(r1.contains(r1[k]));
            assert(r2.contains(r2[k]));
        }
        assert(r1 =~= r2);
    }
}

/// Whether `a` comes strictly before `b`.
pub fn text_before(a: &str, b: &str) -> (r: bool)
    ensures
        r == text_lt(a@, b@),
{
    let na = a.unicode_len();
    let nb = b.unicode_len();
    let mut i: usize = 0;
    assert(a@.skip(0) =~= a@);
    assert(b@.skip(0) =~= b@);
    while i < na && i < nb
        invariant
            na == a@.len(),
            nb == b@.len(),
            i <= na,
            i <= nb,
            text_lt(a@, b@) == text_lt(a@.skip(i as int), b@.skip(i as int)),
        decreases na - i,
    {
        let ca = a.get_char(i);
        let cb = b.get_char(i);
        if ca != cb {
            return ca < cb;
        }
        proof {
            assert(a@.skip(i as int).drop_first() =~= a@.skip(i + 1));
            assert(b@.skip(i as int).drop_first() =~= b@.skip(i + 1));
        }
        i = i + 1;
    }
    i < nb
}


/// Ids of the events of one conversation, ordered by date.
pub open spec fn chat_order(ev: Seq<EventRecord>, o: Seq<usize>, n: int, chat_id: i64) -> bool {
    &&& o.no_duplicates()
    &&& forall|k: int|
        0 <= k < o.len() ==> (#[trigger] o[k]) < n && ev[o[k] as int].chat_id == chat_id
    &&& forall|j: int|
        0 <= j < n && (#[trigger] ev[j]).chat_id == chat_id ==> o.contains(j as usize)
    &&& forall|k: int|
        0 <= k < o.len() - 1 ==> !text_lt(
            ev[o[k + 1] as int].event_date@,
            ev[(#[trigger] o[k]) as int].event_date@,
        )
    &&& forall|k: int|
        0 <= k < o.len() - 1 && !text_lt(
            ev[(#[trigger] o[k]) as int].event_date@,
            ev[o[k + 1] as int].event_date@,
        ) ==> o[k] < o[k + 1]
}

proof fn lemma_insert_keeps_order(
    ev: Seq<EventRecord>,
    old_order: Seq<usize>,
    o: Seq<usize>,
    p: int,
    i: int,
    chat_id: i64,
)
    requires
        0 <= i < ev.len(),
        i < usize::MAX,
        ev[i].chat_id == chat_id,
        chat_order(ev, old_order, i, chat_id),
        0 <= p <= old_order.len(),
        o == old_order.insert(p, i as usize),
        forall|k: int|
            0 <= k < p ==> !text_lt(
                ev[i].event_date@,
                ev[(#[trigger] old_order[k]) as int].event_date@,
            ),
        p < old_order.len() ==> text_lt(ev[i].event_date@, ev[old_order[p] as int].event_date@),
    ensures
        forall|k: int|
            0 <= k < o.len() - 1 ==> !text_lt(
                ev[o[k + 1] as int].event_date@,
                ev[(#[trigger] o[k]) as int].event_date@,
            ),
        forall|k: int|
            0 <= k < o.len() - 1 && !text_lt(
                ev[(#[trigger] o[k]) as int].event_date@,
                ev[o[k + 1] as int].event_date@,
            ) ==> o[k] < o[k + 1],
{
    if p < old_order.len() {
        lemma_text_lt_asymmetric(ev[i].event_date@, ev[old_order[p] as int].event_date@);
    }
    assert forall|k: int| 0 <= k < o.len() - 1 implies !text_lt(
        ev[o[k + 1] as int].event_date@,
        ev[(#[trigger] o[k]) as int].event_date@,
    ) by {
        if k + 1 < p {
            assert(o[k] == old_order[k] && o[k + 1] == old_order[k + 1]);
        } else if k + 1 == p {
            assert(o[k] == old_order[k]);
        } else if k > p {
            assert(o[k] == old_order[k - 1] && o[k + 1] == old_order[k]);
        }
    }
    assert forall|k: int|
        0 <= k < o.len() - 1 && !text_lt(
            ev[(#[trigger] o[k]) as int].event_date@,
            ev[o[k + 1] as int].event_date@,
        ) implies o[k] < o[k + 1] by {
        if k + 1 < p {
            assert(o[k] == old_order[k] && o[k + 1] == old_order[k + 1]);
        } else if k + 1 == p {
            assert(o[k] == old_order[k]);
        } else if k > p {
            assert(o[k] == old_order[k - 1] && o[k + 1] == old_order[k]);
        } else {
            assert(o[k] == i && o[k + 1] == old_order[p]);
        }
    }
}

proof fn lemma_insert_in_order(
    ev: Seq<EventRecord>,
    old_order: Seq<usize>,
    o: Seq<usize>,
    p: int,
    i: int,
    chat_id: i64,
)
    requires
        0 <= i < ev.len(),
        i < usize::MAX,
        ev[i].chat_id == chat_id,
        chat_order(ev, old_order, i, chat_id),
        0 <= p <= old_order.len(),
        o == old_order.insert(p, i as usize),
        forall|k: int|
            0 <= k < p ==> !text_lt(
                ev[i].event_date@,
                ev[(#[trigger] old_order[k]) as int].event_date@,
            ),
        p < old_order.len() ==> text_lt(ev[i].event_date@, ev[old_order[p] as int].event_date@),
    ensures
        chat_order(ev, o, i + 1, chat_id),
{
    lemma_insert_keeps_order(ev, old_order, o, p, i, chat_id);
    assert forall|k: int| 0 <= k < o.len() implies (#[trigger] o[k]) < i + 1 && ev[o[k] as int].chat_id
        == chat_id by {
        if k < p {
            assert(o[k] == old_order[k]);
        } else if k > p {
            assert(o[k] == old_order[k - 1]);
        }
    }
    assert forall|a: int, b: int| 0 <= a < o.len() && 0 <= b < o.len() && a != b implies o[a] != o[b] by {
        let aa = if a < p { a } else { a - 1 };
        let bb = if b < p { b } else { b - 1 };
        if a != p {
            assert(o[a] == old_order[aa]);
        }
        if b != p {
            assert(o[b] == old_order[bb]);
        }
    }
    assert forall|j: int| 0 <= j < i + 1 && (#[trigger] ev[j]).chat_id == chat_id implies o.contains(
        j as usize,
    ) by {
        if j == i {
            assert(o[p] == i);
        } else {
            assert(old_order.contains(j as usize));
            let w = choose|w: int| 0 <= w < old_order.len() && old_order[w] == j as usize;
            if w < p {
                assert(o[w] == old_order[w]);
            } else {
                assert(o[w + 1] == old_order[w]);
            }
        }
    }
}

/// Events and answers, kept in the order in which they were added.
pub struct EventStore {
    events: Vec<EventRecord>,
    attendance: Vec<AttendanceRecord>,
    next_id: i64,
}

impl View for EventStore {
    type V = StoreView;

    closed spec fn view(&self) -> StoreView {
        StoreView { events: self.events@, attendance: self.attendance@, next_id: self.next_id }
    }
}

impl EventStore {
    /// An empty store; the first event gets id 1.
    pub fn new() -> (r: EventStore)
        ensures
            r@.wf(),
            r@.events.len() == 0,
            r@.attendance.len() == 0,
            r@.next_id == 1,
    {
        EventStore { events: Vec::new(), attendance: Vec::new(), next_id: 1 }
    }

    fn find_event(&self, id: i64) -> (r: Option<usize>)
        requires
            self@.wf(),
        ensures
            r is Some <==> self@.has_event(id),
            r matches Some(i) ==> i == self@.event_index(id) && i < self.events@.len(),
    {
        let mut i: usize = 0;
        while i < self.events.len()
            invariant
                self@.wf(),
                i <= self.events@.len(),
                forall|j: int| 0 <= j < i ==> (#[trigger] self.events@[j]).id != id,
            decreases self.events.len() - i,
        {
            if self.events[i].id == id {
                proof {
                    lemma_event_index_unique(self@, i as int);
                }
                return Some(i);
            }
            i = i + 1;
        }
        None
    }

    fn find_record(&self, event_id: i64, user_id: i64) -> (r: Option<usize>)
        requires
            self@.wf(),
        ensures
            r is Some <==> self@.has_record(event_id, user_id),
            r matches Some(i) ==> i == self@.record_index(event_id, user_id) && i
                < self.attendance@.len(),
    {
        let mut i: usize = 0;
        while i < self.attendance.len()
            invariant
                self@.wf(),
                i <= self.attendance@.len(),
                forall|j: int| 0 <= j < i ==> !is_pair(#[trigger] self.attendance@[j], event_id, user_id),
            decreases self.attendance.len() - i,
        {
            let rec = self.attendance[i];
            if rec.event_id == event_id && rec.user_id == user_id {
                proof {
                    lemma_record_index_unique(self@, i as int);
                }
                return Some(i);
            }
            i = i + 1;
        }
        None
    }

    /// Stores a new event made of a completed draft and the stored form of
    /// its date, under the next id; there is none left once the ids are
    /// used up.
    pub fn create_event(
        &mut self,
        creator: i64,
        chat_id: i64,
        draft: EventDraft,
        event_date: String,
    ) -> (r: Option<i64>)
        requires
            old(self)@.wf(),
        ensures
            final(self)@.wf(),
            old(self)@.next_id == i64::MAX ==> r is None && final(self)@ == old(self)@,
            old(self)@.next_id < i64::MAX ==> r == Some(old(self)@.next_id) && final(self)@ == (
            StoreView {
                events: old(self)@.events.push(
                    EventRecord {
                        id: old(self)@.next_id,
                        creator,
                        title: draft.title,
                        description: draft.description,
                        location: draft.location,
                        event_date,
                        chat_id,
                    },
                ),
                attendance: old(self)@.attendance,
                next_id: (old(self)@.next_id + 1) as i64,
            }),
    {
        if self.next_id == i64::MAX {
            return None;
        }
        let id = self.next_id;
        let ghost before = self@;
        self.events.push(
            EventRecord {
                id,
                creator,
                title: draft.title,
                description: draft.description,
                location: draft.location,
                event_date,
                chat_id,
            },
        );
        self.next_id = id + 1;
        proof {
            let v = self@;
            assert forall|x: i64| before.has_event(x) implies v.has_event(x) by {
                let w = choose|w: int| 0 <= w < before.events.len() && (#[trigger] before.events[w]).id == x;
                assert(v.events[w] == before.events[w]);
            }
            assert forall|i: int| 0 <= i < v.attendance.len() implies v.has_event(
                (#[trigger] v.attendance[i]).event_id,
            ) by {
                assert(before.has_event(before.attendance[i].event_id));
            }
        }
        Some(id)
    }

    /// The stored event with `id`, or none.
    pub fn fetch_event(&self, id: i64) -> (r: Option<&EventRecord>)
        requires
            self@.wf(),
        ensures
            r is Some <==> self@.has_event(id),
            r matches Some(e) ==> *e == self@.event(id),
    {
        match self.find_event(id) {
            Some(i) => Some(&self.events[i]),
            None => None,
        }
    }

    /// Applies a press of the `status` button of event `event_id` by
    /// `user_id`, and says what it did; nothing is done, and nothing
    /// returned, when there is no such event.
    pub fn toggle_attendance(&mut self, event_id: i64, user_id: i64, status: AttendanceStatus) -> (r:
        Option<AttendanceWrite>)
        requires
            old(self)@.wf(),
        ensures
            final(self)@.wf(),
            !old(self)@.has_event(event_id) ==> r is None && final(self)@ == old(self)@,
            old(self)@.has_event(event_id) ==> final(self)@ == old(self)@.toggled(
                event_id,
                user_id,
                status,
            ) && r == Some(old(self)@.write_for(event_id, user_id, status)),
    {
        if self.find_event(event_id).is_none() {
            return None;
        }
        let ghost before = self@;
        proof {
            lemma_toggled(before, event_id, user_id, status);
        }
        let rec = AttendanceRecord { event_id, user_id, status };
        match self.find_record(event_id, user_id) {
            None => {
                self.attendance.push(rec);
                assert(self@.attendance =~= before.toggled(event_id, user_id, status).attendance);
                Some(AttendanceWrite::Inserted)
            },
            Some(i) => {
                if self.attendance[i].status == status {
                    self.attendance.remove(i);
                    assert(self@.attendance =~= before.toggled(event_id, user_id, status).attendance);
                    Some(AttendanceWrite::Removed)
                } else {
                    self.attendance.set(i, rec);
                    assert(self@.attendance =~= before.toggled(event_id, user_id, status).attendance);
                    Some(AttendanceWrite::Updated)
                }
            },
        }
    }

    /// Deletes event `id`, first removing every answer to it.
    pub fn delete_event(&mut self, id: i64)
        requires
            old(self)@.wf(),
        ensures
            final(self)@ == old(self)@.without_event(id),
            final(self)@.wf(),
    {
        let ghost before = self@;
        proof {
            lemma_delete_removes(before, id);
        }
        let mut i: usize = self.attendance.len();
        assert(before.attendance.skip(i as int) =~= Seq::<AttendanceRecord>::empty());
        assert(before.attendance.take(i as int) =~= before.attendance);
        while i > 0
            invariant
                i <= before.attendance.len(),
                self.events@ == before.events,
                self.next_id == before.next_id,
                self.attendance@ == before.attendance.take(i as int) + attendance_without(
                    before.attendance.skip(i as int),
                    id,
                ),
            decreases i,
        {
            let k = i - 1;
            let ghost rest = attendance_without(before.attendance.skip(i as int), id);
            assert(before.attendance.skip(k as int).drop_first() =~= before.attendance.skip(i as int));
            assert(self.attendance@[k as int] == before.attendance[k as int]);
            if self.attendance[k].event_id == id {
                self.attendance.remove(k);
                assert(self.attendance@ =~= before.attendance.take(k as int) + rest);
            } else {
                assert(self.attendance@ =~= before.attendance.take(k as int) + (seq![
                    before.attendance[k as int],
                ] + rest));
            }
            i = k;
        }
        assert(before.attendance.skip(0) =~= before.attendance);
        assert(self.attendance@ =~= attendance_without(before.attendance, id));
        let mut i: usize = self.events.len();
        assert(before.events.skip(i as int) =~= Seq::<EventRecord>::empty());
        assert(before.events.take(i as int) =~= before.events);
        while i > 0
            invariant
                i <= before.events.len(),
                self.attendance@ == attendance_without(before.attendance, id),
                self.next_id == before.next_id,
                self.events@ == before.events.take(i as int) + events_without(
                    before.events.skip(i as int),
                    id,
                ),
            decreases i,
        {
            let k = i - 1;
            let ghost rest = events_without(before.events.skip(i as int), id);
            assert(before.events.skip(k as int).drop_first() =~= before.events.skip(i as int));
            assert(self.events@[k as int] == before.events[k as int]);
            if self.events[k].id == id {
                self.events.remove(k);
                assert(self.events@ =~= before.events.take(k as int) + rest);
            } else {
                assert(self.events@ =~= before.events.take(k as int) + (seq![before.events[k as int]]
                    + rest));
            }
            i = k;
        }
        assert(before.events.skip(0) =~= before.events);
        assert(self.events@ =~= events_without(before.events, id));
    }

    /// The answers to event `event_id`, in the order first given.
    pub fn answers(&self, event_id: i64) -> (r: Vec<(i64, AttendanceStatus)>)
        ensures
            r@ == answers_to(self@.attendance, event_id),
    {
        let mut r: Vec<(i64, AttendanceStatus)> = Vec::new();
        let mut i: usize = 0;
        while i < self.attendance.len()
            invariant
                i <= self.attendance@.len(),
                r@ == answers_to(self.attendance@.take(i as int), event_id),
            decreases self.attendance.len() - i,
        {
            let rec = self.attendance[i];
            assert(self.attendance@.take(i + 1).drop_last() =~= self.attendance@.take(i as int));
            if rec.event_id == event_id {
                r.push((rec.user_id, rec.status));
            }
            i = i + 1;
        }
        assert(self.attendance@.take(i as int) =~= self.attendance@);
        r
    }

    /// The ids of the events that `user_id` created, oldest first.
    pub fn event_ids_by_creator(&self, user_id: i64) -> (r: Vec<i64>)
        ensures
            r@ == ids_created_by(self@.events, user_id),
    {
        let mut r: Vec<i64> = Vec::new();
        let mut i: usize = 0;
        while i < self.events.len()
            invariant
                i <= self.events@.len(),
                r@ == ids_created_by(self.events@.take(i as int), user_id),
            decreases self.events.len() - i,
        {
            assert(self.events@.take(i + 1).drop_last() =~= self.events@.take(i as int));
            if self.events[i].creator == user_id {
                r.push(self.events[i].id);
            }
            i = i + 1;
        }
        assert(self.events@.take(i as int) =~= self.events@);
        r
    }

    /// The ids of the events of conversation `chat_id`, ordered by their
    /// stored date, earliest first; events with the same date keep the order
    /// in which they were added.
    pub fn events_in_chat(&self, chat_id: i64) -> (r: Vec<i64>)
        requires
            self@.wf(),
        ensures
            listing_of(self@, chat_id, r@),
            r@.no_duplicates(),
            forall|x: i64|
                r@.contains(x) <==> (self@.has_event(x) && self@.event(x).chat_id == chat_id),
            forall|k: int|
                0 <= k < r@.len() - 1 ==> !text_lt(
                    self@.event(r@[k + 1]).event_date@,
                    self@.event(#[trigger] r@[k]).event_date@,
                ),
            forall|k: int|
                0 <= k < r@.len() - 1 && !text_lt(
                    self@.event(#[trigger] r@[k]).event_date@,
                    self@.event(r@[k + 1]).event_date@,
                ) ==> self@.event_index(r@[k]) < self@.event_index(r@[k + 1]),
    {
        let ghost ev = self.events@;
        let mut order: Vec<usize> = Vec::new();
        let mut i: usize = 0;
        while i < self.events.len()
            invariant
                ev == self.events@,
                i <= ev.len(),
                chat_order(ev, order@, i as int, chat_id),
            decreases ev.len() - i,
        {
            if self.events[i].chat_id == chat_id {
                let date = self.events[i].event_date.as_str();
                let mut p: usize = 0;
                while p < order.len() && !text_before(date, self.events[order[p]].event_date.as_str())
                    invariant
                        ev == self.events@,
                        i < ev.len(),
                        date@ == ev[i as int].event_date@,
                        p <= order@.len(),
                        chat_order(ev, order@, i as int, chat_id),
                        forall|k: int|
                            0 <= k < p ==> !text_lt(
                                ev[i as int].event_date@,
                                ev[(#[trigger] order@[k]) as int].event_date@,
                            ),
                    decreases order@.len() - p,
                {
                    p = p + 1;
                }
                let ghost old_order = order@;
                order.insert(p, i);
                proof {
                    lemma_insert_in_order(ev, old_order, order@, p as int, i as int, chat_id);
                }
            }
            i = i + 1;
        }
        assert(chat_order(ev, order@, ev.len() as int, chat_id));
        let mut r: Vec<i64> = Vec::new();
        let mut k: usize = 0;
        while k < order.len()
            invariant
                ev == self.events@,
                k <= order@.len(),
                r@.len() == k,
                forall|m: int| 0 <= m < order@.len() ==> (#[trigger] order@[m]) < ev.len(),
                forall|m: int| 0 <= m < k ==> r@[m] == ev[(#[trigger] order@[m]) as int].id,
            decreases order@.len() - k,
        {
            r.push(self.events[order[k]].id);
            k = k + 1;
        }
        proof {
            let v = self@;
            assert forall|m: int| 0 <= m < r@.len() implies #[trigger] v.event_index(r@[m]) == order@[m] as int by {
                lemma_event_index_unique(v, order@[m] as int);
            }
            assert forall|a: int, b: int| 0 <= a < r@.len() && 0 <= b < r@.len() && a != b implies r@[a]
                != r@[b] by {
                assert(v.event_index(r@[a]) == order@[a] as int);
                assert(v.event_index(r@[b]) == order@[b] as int);
            }
            assert forall|x: i64| r@.contains(x) <==> (v.has_event(x) && v.event(x).chat_id == chat_id) by {
                if r@.contains(x) {
                    let m = choose|m: int| 0 <= m < r@.len() && r@[m] == x;
                    assert(v.event_index(r@[m]) == order@[m] as int);
                    lemma_event_index_unique(v, order@[m] as int);
                }
                if v.has_event(x) && v.event(x).chat_id == chat_id {
                    let j = v.event_index(x);
                    assert(ev[j].chat_id == chat_id);
                    assert(order@.contains(j as usize));
                    let m = choose|m: int| 0 <= m < order@.len() && order@[m] == j as usize;
                    assert(r@[m] == x);
                }
            }
            assert forall|m: int| 0 <= m < r@.len() - 1 implies !text_lt(
                v.event(r@[m + 1]).event_date@,
                v.event(#[trigger] r@[m]).event_date@,
            ) by {
                assert(v.event_index(r@[m]) == order@[m] as int);
                assert(v.event_index(r@[m + 1]) == order@[m + 1] as int);
            }
            assert forall|m: int|
                0 <= m < r@.len() - 1 && !text_lt(
                    v.event(#[trigger] r@[m]).event_date@,
                    v.event(r@[m + 1]).event_date@,
                ) implies v.event_index(r@[m]) < v.event_index(r@[m + 1]) by {
                assert(v.event_index(r@[m]) == order@[m] as int);
                assert(v.event_index(r@[m + 1]) == order@[m + 1] as int);
            }
        }
        r
    }

    /// Puts back an event read from persistent storage. It is refused, and
    /// the store left as it was, when its id is not positive, is the largest
    /// 64-bit value, or is taken.
    pub fn restore_event(&mut self, record: EventRecord) -> (r: bool)
        requires
            old(self)@.wf(),
        ensures
            final(self)@.wf(),
            r == (0 < record.id < i64::MAX && !old(self)@.has_event(record.id)),
            !r ==> final(self)@ == old(self)@,
            r ==> final(self)@.events == old(self)@.events.push(record),
            r ==> final(self)@.attendance == old(self)@.attendance,
            r ==> final(self)@.next_id == (if record.id < old(self)@.next_id {
                old(self)@.next_id as int
            } else {
                record.id + 1
            }),
    {
        if record.id <= 0 || record.id == i64::MAX || self.find_event(record.id).is_some() {
            return false;
        }
        let ghost before = self@;
        let ghost rec = record;
        let id = record.id;
        self.events.push(record);
        if id >= self.next_id {
            self.next_id = id + 1;
        }
        proof {
            let v = self@;
            assert(v.events[before.events.len() as int] == rec);
            assert forall|x: i64| before.has_event(x) implies v.has_event(x) by {
                let w = choose|w: int| 0 <= w < before.events.len() && (#[trigger] before.events[w]).id == x;
                assert(v.events[w] == before.events[w]);
            }
            assert forall|i: int, j: int|
                0 <= i < v.events.len() && 0 <= j < v.events.len() && i != j implies (
                #[trigger] v.events[i]).id != (#[trigger] v.events[j]).id by {
                if i == before.events.len() {
                    assert(v.events[j] == before.events[j]);
                } else if j == before.events.len() {
                    assert(v.events[i] == before.events[i]);
                }
            }
            assert forall|i: int| 0 <= i < v.attendance.len() implies v.has_event(
                (#[trigger] v.attendance[i]).event_id,
            ) by {
                assert(before.has_event(before.attendance[i].event_id));
            }
        }
        true
    }

    /// Puts back an answer read from persistent storage. It is refused, and
    /// the store left as it was, when its event is not stored or the user's
    /// answer to it is.
    pub fn restore_attendance(&mut self, record: AttendanceRecord) -> (r: bool)
        requires
            old(self)@.wf(),
        ensures
            final(self)@.wf(),
            r == (old(self)@.has_event(record.event_id) && !old(self)@.has_record(
                record.event_id,
                record.user_id,
            )),
            !r ==> final(self)@ == old(self)@,
            r ==> final(self)@.attendance == old(self)@.attendance.push(record),
            r ==> final(self)@.events == old(self)@.events,
            r ==> final(self)@.next_id == old(self)@.next_id,
    {
        if self.find_event(record.event_id).is_none() || self.find_record(
            record.event_id,
            record.user_id,
        ).is_some() {
            return false;
        }
        let ghost before = self@;
        self.attendance.push(record);
        proof {
            let v = self@;
            let n = before.attendance.len() as int;
            assert(v.attendance[n] == record);
            assert forall|i: int, j: int|
                0 <= i < v.attendance.len() && 0 <= j < v.attendance.len() && i != j implies !is_pair(
                    #[trigger] v.attendance[i],
                    (#[trigger] v.attendance[j]).event_id,
                    v.attendance[j].user_id,
                ) by {
                if i == n {
                    assert(!is_pair(before.attendance[j], record.event_id, record.user_id));
                } else if j == n {
                    assert(!is_pair(before.attendance[i], record.event_id, record.user_id));
                }
            }
            assert forall|i: int| 0 <= i < v.attendance.len() implies v.has_event(
                (#[trigger] v.attendance[i]).event_id,
            ) by {
                assert(v.events == before.events);
                if i < n {
                    assert(before.has_event(before.attendance[i].event_id));
                } else {
                    assert(before.has_event(record.event_id));
                }
            }
        }
        true
    }
}

} // verus!
