//! The durable delivery queue: the escaped wire format of `deliver` items,
//! and an in-memory queue with the lease discipline of the port.

use vstd::prelude::*;

use crate::entity::{QueueItem, QueueItemV};
use crate::strutil::{find_char, lemma_find_char, spec_find_char, substring};

verus! {

/// How one character is written on the wire: backslashes double, spaces
/// become `\s`, everything else stands for itself.
pub open spec fn spec_escape_char(c: char) -> Seq<char> {
    if c == '\\' {
        seq!['\\', '\\']
    } else if c == ' ' {
        seq!['\\', 's']
    } else {
        seq![c]
    }
}

/// The escaped form of a string.
pub open spec fn spec_escape(s: Seq<char>) -> Seq<char>
    decreases s.len(),
{
    if s.len() == 0 {
        Seq::empty()
    } else {
        spec_escape_char(s[0]) + spec_escape(s.drop_first())
    }
}

/// The original of an escaped string, when every escape is well formed.
pub open spec fn spec_unescape(s: Seq<char>) -> Option<Seq<char>>
    decreases s.len(),
{
    if s.len() == 0 {
        Some(Seq::empty())
    } else if s[0] == '\\' {
        if s.len() >= 2 && s[1] == '\\' {
            match spec_unescape(s.skip(2)) {
                Some(r) => Some(seq!['\\'] + r),
                None => None,
            }
        } else if s.len() >= 2 && s[1] == 's' {
            match spec_unescape(s.skip(2)) {
                Some(r) => Some(seq![' '] + r),
                None => None,
            }
        } else {
            None
        }
    } else {
        match spec_unescape(s.skip(1)) {
            Some(r) => Some(seq![s[0]] + r),
            None => None,
        }
    }
}

/// Escaping one more character appends its escaped form.
proof fn lemma_escape_push(s: Seq<char>, c: char)
    ensures
        spec_escape(s.push(c)) == spec_escape(s) + spec_escape_char(c),
    decreases s.len(),
{
    if s.len() == 0 {
        assert(s.push(c)[0] == c);
        assert(s.push(c).drop_first() =~= Seq::<char>::empty());
        assert(spec_escape(s.push(c)) == spec_escape_char(c) + spec_escape(
            s.push(c).drop_first(),
        ));
        assert(spec_escape(Seq::<char>::empty()) == Seq::<char>::empty());
        assert(spec_escape(s.push(c)) =~= spec_escape(s) + spec_escape_char(c));
    } else {
        assert(s.push(c)[0] == s[0]);
        assert(s.push(c).drop_first() =~= s.drop_first().push(c));
        lemma_escape_push(s.drop_first(), c);
        assert(spec_escape(s.push(c)) =~= spec_escape(s) + spec_escape_char(c));
    }
}

/// The escaped form never contains a raw space.
pub proof fn lemma_escape_no_space(s: Seq<char>)
    ensures
        forall|j: int| 0 <= j < spec_escape(s).len() ==> spec_escape(s)[j] != ' ',
    decreases s.len(),
{
    if s.len() > 0 {
        lemma_escape_no_space(s.drop_first());
        assert forall|j: int| 0 <= j < spec_escape(s).len() implies spec_escape(s)[j] != ' ' by {
            let head = spec_escape_char(s[0]);
            if j < head.len() {
                assert(spec_escape(s)[j] == head[j]);
            } else {
                assert(spec_escape(s)[j] == spec_escape(s.drop_first())[j - head.len()]);
            }
        }
    }
}

/// Unescaping inverts escaping.
pub proof fn lemma_unescape_escape(s: Seq<char>)
    ensures
        spec_unescape(spec_escape(s)) == Some(s),
    decreases s.len(),
{
    let esc = spec_escape(s);
    if s.len() == 0 {
        assert(esc =~= Seq::<char>::empty());
        assert(spec_unescape(esc) == Some(Seq::<char>::empty()));
        assert(s =~= Seq::<char>::empty());
    } else {
        let head = spec_escape_char(s[0]);
        let tail = spec_escape(s.drop_first());
        lemma_unescape_escape(s.drop_first());
        if s[0] == '\\' {
            assert(esc[0] == '\\');
            assert(esc[1] == '\\');
            assert(esc.len() >= 2);
            assert(esc.skip(2) =~= tail);
            assert(spec_unescape(esc) == Some(seq!['\\'] + s.drop_first()));
            assert(seq!['\\'] + s.drop_first() =~= s);
        } else if s[0] == ' ' {
            assert(esc[0] == '\\');
            assert(esc[1] == 's');
            assert(esc.skip(2) =~= tail);
            assert(spec_unescape(esc) == Some(seq![' '] + s.drop_first()));
            assert(seq![' '] + s.drop_first() =~= s);
        } else {
            assert(esc[0] == s[0]);
            assert(esc[0] != '\\');
            assert(esc.skip(1) =~= tail);
            assert(spec_unescape(esc) == Some(seq![s[0]] + s.drop_first()));
            assert(seq![s[0]] + s.drop_first() =~= s);
        }
    }
}

/// Escape a string for the queue wire format.
pub fn escape(s: &str) -> (r: String)
    ensures
        r@ == spec_escape(s@),
{
    let len = s.unicode_len();
    let mut out = String::new();
    let mut i: usize = 0;
    proof {
        assert(s@.take(0) =~= Seq::<char>::empty());
    }
    while i < len
        invariant
            len == s@.len(),
            i <= len,
            out@ == spec_escape(s@.take(i as int)),
        decreases len - i,
    {
        let c = s.get_char(i);
        if c == '\\' {
            out.append("\\\\");
            proof {
                reveal_strlit("\\\\");
            }
        } else if c == ' ' {
            out.append("\\s");
            proof {
                reveal_strlit("\\s");
            }
        } else {
            let piece = s.substring_char(i, i + 1);
            out.append(piece);
            proof {
                assert(piece@ =~= seq![s@[i as int]]);
            }
        }
        proof {
            lemma_escape_push(s@.take(i as int), s@[i as int]);
            assert(s@.take(i + 1) =~= s@.take(i as int).push(s@[i as int]));
            assert(out@ =~= spec_escape(s@.take(i + 1)));
        }
        i = i + 1;
    }
    proof {
        assert(s@.take(len as int) =~= s@);
    }
    out
}

/// Undo the queue wire escaping; `None` on a dangling or unknown escape.
pub fn unescape(s: &str) -> (r: Option<String>)
    ensures
        match r {
            Some(out) => spec_unescape(s@) == Some(out@),
            None => spec_unescape(s@) is None,
        },
{
    let len = s.unicode_len();
    let mut out = String::new();
    let mut i: usize = 0;
    proof {
        assert(s@.skip(0) =~= s@);
    }
    while i < len
        invariant
            len == s@.len(),
            i <= len,
            match spec_unescape(s@.skip(i as int)) {
                Some(u) => spec_unescape(s@) == Some(out@ + u),
                None => spec_unescape(s@) is None,
            },
        decreases len - i,
    {
        let ghost pending = s@.skip(i as int);
        proof {
            assert(pending[0] == s@[i as int]);
        }
        let c = s.get_char(i);
        if c == '\\' {
            if i + 1 >= len {
                proof {
                    assert(pending.len() < 2);
                    assert(spec_unescape(pending) is None);
                }
                return None;
            }
            let d = s.get_char(i + 1);
            proof {
                assert(pending[1] == s@[i + 1]);
            }
            if d == '\\' {
                let ghost out0 = out@;
                out.append("\\");
                proof {
                    reveal_strlit("\\");
                    assert(pending.skip(2) =~= s@.skip(i + 2));
                    assert(("\\")@ =~= seq!['\\']);
                    assert(out@ =~= out0 + seq!['\\']);
                    match spec_unescape(s@.skip(i + 2)) {
                        Some(u) => {
                            assert(spec_unescape(pending) == Some(seq!['\\'] + u));
                            assert(out0 + (seq!['\\'] + u) =~= out@ + u);
                        },
                        None => {},
                    }
                }
                i = i + 2;
            } else if d == 's' {
                let ghost out0 = out@;
                out.append(" ");
                proof {
                    reveal_strlit(" ");
                    assert(pending.skip(2) =~= s@.skip(i + 2));
                    assert((" ")@ =~= seq![' ']);
                    assert(out@ =~= out0 + seq![' ']);
                    match spec_unescape(s@.skip(i + 2)) {
                        Some(u) => {
                            assert(spec_unescape(pending) == Some(seq![' '] + u));
                            assert(out0 + (seq![' '] + u) =~= out@ + u);
                        },
                        None => {},
                    }
                }
                i = i + 2;
            } else {
                proof {
                    assert(spec_unescape(pending) is None);
                }
                return None;
            }
        } else {
            let piece = s.substring_char(i, i + 1);
            let ghost out0 = out@;
            out.append(piece);
            proof {
                assert(piece@ =~= seq![s@[i as int]]);
                assert(pending.skip(1) =~= s@.skip(i + 1));
                assert(out@ =~= out0 + seq![s@[i as int]]);
                match spec_unescape(s@.skip(i + 1)) {
                    Some(u) => {
                        assert(spec_unescape(pending) == Some(seq![s@[i as int]] + u));
                        assert(out0 + (seq![s@[i as int]] + u) =~= out@ + u);
                    },
                    None => {},
                }
            }
            i = i + 1;
        }
    }
    proof {
        assert(s@.skip(len as int) =~= Seq::<char>::empty());
        assert(spec_unescape(s@) == Some(out@ + Seq::<char>::empty()));
        assert(out@ + Seq::<char>::empty() =~= out@);
    }
    Some(out)
}

/// The wire form of a delivery order: both parts escaped, joined by a space.
pub open spec fn spec_format_delivery(item: Seq<char>, inbox: Seq<char>) -> Seq<char> {
    spec_escape(item) + seq![' '] + spec_escape(inbox)
}

/// Read a delivery order back from the wire: split at the first space,
/// unescape both halves.
pub open spec fn spec_parse_delivery(data: Seq<char>) -> Option<(Seq<char>, Seq<char>)> {
    match spec_find_char(data, ' ') {
        None => None,
        Some(i) => match (
            spec_unescape(data.subrange(0, i)),
            spec_unescape(data.subrange(i + 1, data.len() as int)),
        ) {
            (Some(x), Some(y)) => Some((x, y)),
            _ => None,
        },
    }
}

/// Build the wire form of a delivery order.
pub fn format_delivery(item: &str, inbox: &str) -> (r: String)
    ensures
        r@ == spec_format_delivery(item@, inbox@),
{
    let mut out = escape(item);
    out.append(" ");
    proof {
        reveal_strlit(" ");
        assert((" ")@ =~= seq![' ']);
    }
    let rest = escape(inbox);
    out.append(rest.as_str());
    out
}

/// Parse the wire form of a delivery order.
pub fn parse_delivery(data: &str) -> (r: Option<(String, String)>)
    ensures
        match r {
            Some(p) => spec_parse_delivery(data@) == Some((p.0@, p.1@)),
            None => spec_parse_delivery(data@) is None,
        },
{
    let len = data.unicode_len();
    match find_char(data, ' ') {
        None => None,
        Some(i) => {
            proof {
                lemma_find_char(data@, ' ');
            }
            let left = substring(data, 0, i);
            let right = substring(data, i + 1, len);
            match (unescape(left.as_str()), unescape(right.as_str())) {
                (Some(x), Some(y)) => Some((x, y)),
                _ => None,
            }
        },
    }
}

/// Formatting then parsing a delivery order gives the two parts back.
pub proof fn lemma_delivery_round_trip(item: Seq<char>, inbox: Seq<char>)
    ensures
        spec_parse_delivery(spec_format_delivery(item, inbox)) == Some((item, inbox)),
{
    let ei = spec_escape(item);
    let eb = spec_escape(inbox);
    let data = spec_format_delivery(item, inbox);
    let sep = ei.len() as int;
    lemma_escape_no_space(item);
    lemma_escape_no_space(inbox);
    assert(data[sep] == ' ');
    assert forall|j: int| 0 <= j < sep implies data[j] != ' ' by {
        assert(data[j] == ei[j]);
    }
    lemma_find_char(data, ' ');
    let found = spec_find_char(data, ' ');
    assert(found == Some(sep)) by {
        match found {
            None => {
                assert(data[sep] != ' ');
            },
            Some(k) => {
                if k < sep {
                    assert(data[k] != ' ');
                }
                if k > sep {
                    assert(data[sep] != ' ');
                }
            },
        }
    }
    assert(data.subrange(0, sep) =~= ei);
    assert(data.subrange(sep + 1, data.len() as int) =~= eb);
    lemma_unescape_escape(item);
    lemma_unescape_escape(inbox);
}

/// The lease state of a queue element.
#[derive(Clone, Copy, PartialEq, Eq, Structural)]
pub enum QueueState {
    /// Waiting to be leased.
    Pending,
    /// Handed to a worker and not yet resolved.
    Leased,
    /// Resolved; never handed out again.
    Success,
    /// Resolved unsuccessfully; eligible for another lease.
    Failed,
}

/// An in-memory delivery queue with per-item lease states.
pub struct MemoryQueue {
    items: Vec<(QueueItem, QueueState)>,
    next_id: u64,
}

impl MemoryQueue {
    /// The abstract content: each element's value and state, in order.
    pub closed spec fn elems(&self) -> Seq<(QueueItemV, QueueState)> {
        self.items@.map_values(|e: (QueueItem, QueueState)| (e.0@, e.1))
    }

    /// Ids are unique and below the id counter.
    pub closed spec fn wf(&self) -> bool {
        &&& forall|a: int, b: int|
            0 <= a < b < self.elems().len() ==> self.elems()[a].0.id != self.elems()[b].0.id
        &&& forall|j: int| 0 <= j < self.elems().len() ==> (#[trigger] self.elems()[j]).0.id < self.next_id
    }

    /// An empty queue.
    pub fn new() -> (r: MemoryQueue)
        ensures
            r.wf(),
            r.elems().len() == 0,
    {
        let r = MemoryQueue { items: Vec::new(), next_id: 0 };
        proof {
            assert(r.elems() =~= Seq::<(QueueItemV, QueueState)>::empty());
        }
        r
    }

    /// Enqueue an event as a pending element with a fresh id.
    pub fn add(&mut self, event: String, data: String) -> (r: Result<(), ()>)
        requires
            old(self).wf(),
        ensures
            final(self).wf(),
            match r {
                Ok(()) => {
                    &&& final(self).elems().len() == old(self).elems().len() + 1
                    &&& final(self).elems().drop_last() == old(self).elems()
                    &&& final(self).elems().last().0.event == event@
                    &&& final(self).elems().last().0.data == data@
                    &&& final(self).elems().last().1 == QueueState::Pending
                },
                Err(()) => *final(self) == *old(self),
            },
    {
        if self.next_id == u64::MAX {
            return Err(());
        }
        let id = self.next_id;
        self.next_id = self.next_id + 1;
        let item = QueueItem { id, event, data };
        let ghost before = self.elems();
        self.items.push((item, QueueState::Pending));
        proof {
            assert(self.elems() =~= before.push((
                QueueItemV { id, event: self.items@.last().0.event@, data: self.items@.last().0.data@ },
                QueueState::Pending,
            )));
            assert(self.elems().drop_last() =~= old(self).elems());
            let n = before.len();
            assert(self.elems().last().0.id == id);
            assert forall|a: int, b: int|
                0 <= a < b < self.elems().len() implies self.elems()[a].0.id
                != self.elems()[b].0.id by {
                if b == n {
                    assert(before[a].0.id < id);
                } else {
                    assert(before[a].0.id != before[b].0.id);
                }
            }
            assert forall|j: int|
                0 <= j < self.elems().len() implies (#[trigger] self.elems()[j]).0.id
                < self.next_id by {
                if j < n {
                    assert(before[j].0.id < id);
                }
            }
        }
        Ok(())
    }

    /// Lease one element that is pending or failed, marking it leased.
    /// An element marked `Success` is never returned.
    pub fn get_item(&mut self) -> (r: Option<QueueItem>)
        requires
            old(self).wf(),
        ensures
            final(self).wf(),
            match r {
                Some(item) => exists|j: int|
                    {
                        &&& 0 <= j < old(self).elems().len()
                        &&& #[trigger] old(self).elems()[j].0 == item@
                        &&& (old(self).elems()[j].1 == QueueState::Pending || old(
                            self,
                        ).elems()[j].1 == QueueState::Failed)
                        &&& final(self).elems() == old(self).elems().update(
                            j,
                            (item@, QueueState::Leased),
                        )
                    },
                None => *final(self) == *old(self) && forall|j: int|
                    0 <= j < old(self).elems().len() ==> (#[trigger] old(self).elems()[j].1)
                        != QueueState::Pending && old(self).elems()[j].1 != QueueState::Failed,
            },
    {
        let n = self.items.len();
        let mut i: usize = 0;
        while i < n
            invariant
                self.wf(),
                *self == *old(self),
                n == self.items@.len(),
                i <= n,
                forall|j: int|
                    0 <= j < i ==> (#[trigger] self.elems()[j].1) != QueueState::Pending
                        && self.elems()[j].1 != QueueState::Failed,
            decreases n - i,
        {
            let state = self.items[i].1;
            if state == QueueState::Pending || state == QueueState::Failed {
                let item = self.items[i].0.clone();
                let ghost before = self.elems();
                let slot = &mut self.items[i];
                slot.1 = QueueState::Leased;
                proof {
                    assert(self.elems() =~= before.update(i as int, (item@, QueueState::Leased)));
                    assert(before[i as int].0 == item@);
                    assert forall|a: int, b: int|
                        0 <= a < b < self.elems().len() implies self.elems()[a].0.id
                        != self.elems()[b].0.id by {
                        assert(before[a].0.id != before[b].0.id);
                    }
                    assert forall|j: int|
                        0 <= j < self.elems().len() implies (#[trigger] self.elems()[j]).0.id
                        < self.next_id by {
                        assert(before[j].0.id < self.next_id);
                    }
                    assert(old(self).elems()[i as int].0 == item@);
                    assert(old(self).elems()[i as int].1 == QueueState::Pending || old(
                        self,
                    ).elems()[i as int].1 == QueueState::Failed);
                    assert(self.elems() == old(self).elems().update(
                        i as int,
                        (item@, QueueState::Leased),
                    ));
                }
                return Some(item);
            }
            i = i + 1;
        }
        None
    }

    /// Position of the element with the id of `item`.
    fn find_id(&self, id: u64) -> (r: Option<usize>)
        ensures
            match r {
                Some(j) => j < self.elems().len() && self.elems()[j as int].0.id == id,
                None => forall|j: int|
                    0 <= j < self.elems().len() ==> (#[trigger] self.elems()[j]).0.id != id,
            },
    {
        let n = self.items.len();
        let mut i: usize = 0;
        while i < n
            invariant
                n == self.items@.len(),
                i <= n,
                forall|j: int| 0 <= j < i ==> (#[trigger] self.elems()[j]).0.id != id,
            decreases n - i,
        {
            if self.items[i].0.id == id {
                return Some(i);
            }
            i = i + 1;
        }
        None
    }

    /// Mark the element with this item's id as resolved successfully.
    pub fn mark_success(&mut self, item: &QueueItem)
        requires
            old(self).wf(),
        ensures
            final(self).wf(),
            forall|j: int|
                0 <= j < old(self).elems().len() && (#[trigger] old(self).elems()[j]).0.id
                    != item@.id ==> final(self).elems()[j] == old(self).elems()[j],
            final(self).elems().len() == old(self).elems().len(),
            forall|j: int|
                0 <= j < old(self).elems().len() && (#[trigger] old(self).elems()[j]).0.id
                    == item@.id ==> final(self).elems()[j] == (
                    old(self).elems()[j].0,
                    QueueState::Success,
                ),
    {
        self.set_state(item, QueueState::Success);
    }

    /// Mark the element with this item's id as failed; it may be leased again.
    pub fn mark_failure(&mut self, item: &QueueItem)
        requires
            old(self).wf(),
        ensures
            final(self).wf(),
            forall|j: int|
                0 <= j < old(self).elems().len() && (#[trigger] old(self).elems()[j]).0.id
                    != item@.id ==> final(self).elems()[j] == old(self).elems()[j],
            final(self).elems().len() == old(self).elems().len(),
            forall|j: int|
                0 <= j < old(self).elems().len() && (#[trigger] old(self).elems()[j]).0.id
                    == item@.id ==> final(self).elems()[j] == (
                    old(self).elems()[j].0,
                    QueueState::Failed,
                ),
    {
        self.set_state(item, QueueState::Failed);
    }

    /// Set the state of the element carrying this item's id.
    fn set_state(&mut self, item: &QueueItem, state: QueueState)
        requires
            old(self).wf(),
        ensures
            final(self).wf(),
            forall|j: int|
                0 <= j < old(self).elems().len() && (#[trigger] old(self).elems()[j]).0.id
                    != item@.id ==> final(self).elems()[j] == old(self).elems()[j],
            final(self).elems().len() == old(self).elems().len(),
            forall|j: int|
                0 <= j < old(self).elems().len() && (#[trigger] old(self).elems()[j]).0.id
                    == item@.id ==> final(self).elems()[j] == (old(self).elems()[j].0, state),
    {
        match self.find_id(item.id) {
            Some(j) => {
                let ghost before = self.elems();
                let slot = &mut self.items[j];
                slot.1 = state;
                proof {
                    assert(self.elems() =~= before.update(j as int, (before[j as int].0, state)));
                    assert forall|a: int, b: int|
                        0 <= a < b < self.elems().len() implies self.elems()[a].0.id
                        != self.elems()[b].0.id by {
                        assert(before[a].0.id != before[b].0.id);
                    }
                    assert forall|k: int|
                        0 <= k < self.elems().len() implies (#[trigger] self.elems()[k]).0.id
                        < self.next_id by {
                        assert(before[k].0.id < self.next_id);
                    }
                    assert forall|k: int|
                        0 <= k < before.len() && (#[trigger] before[k]).0.id == item@.id implies k
                        == j as int by {
                        if k != j as int {
                            if k < j as int {
                                assert(before[k].0.id != before[j as int].0.id);
                            } else {
                                assert(before[j as int].0.id != before[k].0.id);
                            }
                        }
                    }
                }
            },
            None => {},
        }
    }
}

} // verus!
