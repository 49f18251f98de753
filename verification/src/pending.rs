//! Requests that wait for a reply of the workstation.

use crate::single::Single;
use crate::text::{decimal, decimal_text};
use vstd::prelude::*;
use vstd::string::*;

verus! {

/// What a request waits for. Slots are counted from zero.
#[derive(Clone, Copy, Debug, PartialEq, Eq, Structural)]
pub enum Waiting {
    /// The end of the description of a plugin.
    Descriptor { ssid: i32, slot: i32 },
    /// The value of one parameter.
    Value { ssid: i32, slot: i32, param: i32 },
    /// The values of all parameters of a plugin.
    Batch { ssid: i32, slot: i32 },
    /// The sample rate of the session.
    SampleRate,
    /// The loop range of the session.
    LoopRange,
    /// The value of an automated control.
    AutoValue,
}

/// Where the session loops.
#[derive(Clone, Copy, Debug, PartialEq, Eq, Structural)]
pub struct LoopRange {
    pub start: i32,
    pub end: i32,
    pub start_seconds: Single,
    pub end_seconds: Single,
}

/// What the workstation replied.
#[derive(Debug)]
pub enum Reply {
    Described,
    Value(Single),
    Batch(Vec<Single>),
    SampleRate(i32),
    LoopRange(Option<LoopRange>),
    AutoValue(Single),
}

/// What a reply holds.
pub enum ReplyView {
    Described,
    Value(Single),
    Batch(Seq<Single>),
    SampleRate(i32),
    LoopRange(Option<LoopRange>),
    AutoValue(Single),
}

impl View for Reply {
    type V = ReplyView;

    open spec fn view(&self) -> ReplyView {
        match self {
            Reply::Described => ReplyView::Described,
            Reply::Value(v) => ReplyView::Value(*v),
            Reply::Batch(v) => ReplyView::Batch(v@),
            Reply::SampleRate(r) => ReplyView::SampleRate(*r),
            Reply::LoopRange(r) => ReplyView::LoopRange(*r),
            Reply::AutoValue(v) => ReplyView::AutoValue(*v),
        }
    }
}

impl ReplyView {
    /// Whether this is the kind of reply that `w` is for.
    pub open spec fn suits(self, w: Waiting) -> bool {
        match w {
            Waiting::Descriptor { .. } => self is Described,
            Waiting::Value { .. } => self is Value,
            Waiting::Batch { .. } => self is Batch,
            Waiting::SampleRate => self is SampleRate,
            Waiting::LoopRange => self is LoopRange,
            Waiting::AutoValue => self is AutoValue,
        }
    }
}

/// Why no reply came.
#[derive(Clone, Copy, Debug, PartialEq, Eq, Structural)]
pub enum WaitError {
    /// None came in time.
    TimedOut,
    /// Another request took the place of this one.
    Cancelled,
}

/// A reply together with the request that it is for.
#[derive(Debug)]
pub struct Delivery<W> {
    pub to: W,
    pub reply: Reply,
}

/// The strip and the slot as they stand in messages.
pub open spec fn strip_and_slot(ssid: i32, slot: i32) -> Seq<char> {
    decimal_text(ssid as int) + " slot "@ + decimal_text(slot as int)
}

/// Says that no reply came, and why.
pub open spec fn wait_error_text(w: Waiting, e: WaitError) -> Seq<char> {
    match (w, e) {
        (
            Waiting::Descriptor { ssid, slot },
            WaitError::TimedOut,
        ) => "Timed out waiting for /strip/plugin/descriptor_end for strip "@ + strip_and_slot(
            ssid,
            slot,
        ),
        (
            Waiting::Descriptor { ssid, slot },
            WaitError::Cancelled,
        ) => "Descriptor wait cancelled for strip "@ + strip_and_slot(ssid, slot),
        (
            Waiting::Value { ssid, slot, param },
            WaitError::TimedOut,
        ) => "Timed out waiting for /strip/plugin/parameter/value strip "@ + strip_and_slot(
            ssid,
            slot,
        ) + " param "@ + decimal_text(param as int),
        (
            Waiting::Value { ssid, slot, param },
            WaitError::Cancelled,
        ) => "Param wait cancelled strip "@ + strip_and_slot(ssid, slot) + " param "@
            + decimal_text(param as int),
        (
            Waiting::Batch { ssid, slot },
            WaitError::TimedOut,
        ) => "Timed out waiting for /strip/plugin/parameter/values strip "@ + strip_and_slot(
            ssid,
            slot,
        ),
        (
            Waiting::Batch { ssid, slot },
            WaitError::Cancelled,
        ) => "Batch param wait cancelled strip "@ + strip_and_slot(ssid, slot),
        (
            Waiting::SampleRate,
            WaitError::TimedOut,
        ) => "Timed out waiting for /mixpilot/reply/sample_rate"@,
        (Waiting::SampleRate, WaitError::Cancelled) => "Sample rate request cancelled"@,
        (
            Waiting::LoopRange,
            WaitError::TimedOut,
        ) => "Timed out waiting for /mixpilot/reply/loop_range"@,
        (Waiting::LoopRange, WaitError::Cancelled) => "Loop range request cancelled"@,
        (
            Waiting::AutoValue,
            WaitError::TimedOut,
        ) => "Timed out waiting for /mixpilot/reply/auto_value"@,
        (Waiting::AutoValue, WaitError::Cancelled) => "Auto value request cancelled"@,
    }
}

/// `head`, then the strip and the slot.
fn about_plugin(head: &str, ssid: i32, slot: i32) -> (r: String)
    ensures
        r@ == head@ + strip_and_slot(ssid, slot),
{
    let mut t = head.to_owned();
    t.append(decimal(ssid as i64).as_str());
    t.append(" slot ");
    t.append(decimal(slot as i64).as_str());
    assert(t@ =~= head@ + strip_and_slot(ssid, slot));
    t
}

/// Says that no reply came, and why.
pub fn wait_error(w: Waiting, e: WaitError) -> (r: String)
    ensures
        r@ == wait_error_text(w, e),
{
    match (w, e) {
        (Waiting::Descriptor { ssid, slot }, WaitError::TimedOut) => about_plugin(
            "Timed out waiting for /strip/plugin/descriptor_end for strip ",
            ssid,
            slot,
        ),
        (Waiting::Descriptor { ssid, slot }, WaitError::Cancelled) => about_plugin(
            "Descriptor wait cancelled for strip ",
            ssid,
            slot,
        ),
        (Waiting::Value { ssid, slot, param }, e) => {
            let mut t = match e {
                WaitError::TimedOut => about_plugin(
                    "Timed out waiting for /strip/plugin/parameter/value strip ",
                    ssid,
                    slot,
                ),
                WaitError::Cancelled => about_plugin("Param wait cancelled strip ", ssid, slot),
            };
            t.append(" param ");
            t.append(decimal(param as i64).as_str());
            t
        },
        (Waiting::Batch { ssid, slot }, WaitError::TimedOut) => about_plugin(
            "Timed out waiting for /strip/plugin/parameter/values strip ",
            ssid,
            slot,
        ),
        (Waiting::Batch { ssid, slot }, WaitError::Cancelled) => about_plugin(
            "Batch param wait cancelled strip ",
            ssid,
            slot,
        ),
        (Waiting::SampleRate, WaitError::TimedOut) =>
            "Timed out waiting for /mixpilot/reply/sample_rate".to_owned(),
        (Waiting::SampleRate, WaitError::Cancelled) => "Sample rate request cancelled".to_owned(),
        (Waiting::LoopRange, WaitError::TimedOut) =>
            "Timed out waiting for /mixpilot/reply/loop_range".to_owned(),
        (Waiting::LoopRange, WaitError::Cancelled) => "Loop range request cancelled".to_owned(),
        (Waiting::AutoValue, WaitError::TimedOut) =>
            "Timed out waiting for /mixpilot/reply/auto_value".to_owned(),
        (Waiting::AutoValue, WaitError::Cancelled) => "Auto value request cancelled".to_owned(),
    }
}

/// The requests that wait, at most one for each thing that can be waited for. A request
/// is whatever the caller hands over to be told of the reply by.
#[derive(Debug)]
pub struct PendingRequests<W> {
    waiters: Vec<(Waiting, W)>,
}

impl<W> PendingRequests<W> {
    /// No two requests wait for the same thing.
    pub closed spec fn wf(self) -> bool {
        forall|i: int, j: int|
            0 <= i < j < self.waiters@.len() ==> (#[trigger] self.waiters@[i]).0 != (
            #[trigger] self.waiters@[j]).0
    }

    /// Whether the request at `i` waits for `w`.
    closed spec fn is_at(self, w: Waiting, i: int) -> bool {
        0 <= i < self.waiters@.len() && self.waiters@[i].0 == w
    }

    /// A request for `w`, where there is one.
    closed spec fn place(self, w: Waiting) -> int {
        choose|i: int| self.is_at(w, i)
    }

    /// Which request waits for each thing.
    pub closed spec fn map(self) -> Map<Waiting, W> {
        Map::new(
            |w: Waiting| exists|i: int| self.is_at(w, i),
            |w: Waiting| self.waiters@[self.place(w)].1,
        )
    }
}

impl<W> View for PendingRequests<W> {
    type V = Map<Waiting, W>;

    open spec fn view(&self) -> Map<Waiting, W> {
        self.map()
    }
}

impl<W> PendingRequests<W> {
    /// What the table says of the request at `i`.
    proof fn lemma_at(self, i: int)
        requires
            self.wf(),
            0 <= i < self.waiters@.len(),
        ensures
            self@.contains_key(self.waiters@[i].0),
            self@[self.waiters@[i].0] == self.waiters@[i].1,
    {
        let w = self.waiters@[i].0;
        assert(self.is_at(w, i));
        let p = self.place(w);
        assert(self.is_at(w, p));
        assert(p == i);
    }

    /// Nothing is waited for.
    pub fn new() -> (r: PendingRequests<W>)
        ensures
            r.wf(),
            r@ == Map::<Waiting, W>::empty(),
    {
        let r = PendingRequests { waiters: Vec::new() };
        proof {
            assert forall|w: Waiting| !r@.contains_key(w) by {
                assert(forall|i: int| !r.is_at(w, i));
            }
            assert(r@ =~= Map::<Waiting, W>::empty());
        }
        r
    }

    /// Takes out the request that waits for `w`, where there is one.
    pub fn take(&mut self, w: Waiting) -> (r: Option<W>)
        requires
            old(self).wf(),
        ensures
            final(self).wf(),
            final(self)@ == old(self)@.remove(w),
            match r {
                Some(x) => old(self)@.contains_key(w) && x == old(self)@[w],
                None => !old(self)@.contains_key(w),
            },
    {
        let ghost before = *self;
        let mut at: usize = 0;
        while at < self.waiters.len() && self.waiters[at].0 != w
            invariant
                at <= self.waiters@.len(),
                forall|i: int| 0 <= i < at ==> (#[trigger] self.waiters@[i]).0 != w,
            decreases self.waiters@.len() - at,
        {
            at = at + 1;
        }
        if at == self.waiters.len() {
            proof {
                if before@.contains_key(w) {
                    assert(before.is_at(w, before.place(w)));
                }
                assert(self@ =~= before@.remove(w));
            }
            return None;
        }
        let (_, x) = self.waiters.remove(at);
        proof {
            before.lemma_at(at as int);
            let after = *self;
            let a = after.waiters@;
            let b = before.waiters@;
            assert forall|i: int, j: int| 0 <= i < j < a.len() implies (#[trigger] a[i]).0 != (
            #[trigger] a[j]).0 by {
                let i2 = if i < at {
                    i
                } else {
                    i + 1
                };
                let j2 = if j < at {
                    j
                } else {
                    j + 1
                };
                assert(a[i] == b[i2] && a[j] == b[j2]);
            }
            let expected = before@.remove(w);
            assert forall|k: Waiting|
                #![trigger after@.dom().contains(k)]
                #![trigger expected.dom().contains(k)]
                #![trigger after@[k]]
                after@.dom().contains(k) == expected.dom().contains(k) && (
                after@.dom().contains(k) ==> after@[k] == expected[k]) by {
                if after@.contains_key(k) {
                    let p = after.place(k);
                    assert(after.is_at(k, p));
                    let q = if p < at {
                        p
                    } else {
                        p + 1
                    };
                    assert(b[q] == a[p]);
                    assert(b[q].0 != b[at as int].0);
                    before.lemma_at(q);
                    after.lemma_at(p);
                }
                if before@.contains_key(k) && k != w {
                    let q = before.place(k);
                    assert(before.is_at(k, q));
                    let p = if q < at {
                        q
                    } else {
                        q - 1
                    };
                    assert(b[q] == a[p]);
                    after.lemma_at(p);
                }
            }
            assert(after@ =~= expected);
        }
        Some(x)
    }

    /// Lets `request` wait for `w`, and hands back the request that it takes the place
    /// of.
    pub fn register(&mut self, w: Waiting, request: W) -> (r: Option<W>)
        requires
            old(self).wf(),
        ensures
            final(self).wf(),
            final(self)@ == old(self)@.insert(w, request),
            match r {
                Some(x) => old(self)@.contains_key(w) && x == old(self)@[w],
                None => !old(self)@.contains_key(w),
            },
    {
        let ghost before = *self;
        let replaced = self.take(w);
        let ghost middle = *self;
        self.waiters.push((w, request));
        proof {
            let after = *self;
            let a = after.waiters@;
            let m = middle.waiters@;
            assert forall|i: int, j: int| 0 <= i < j < a.len() implies (#[trigger] a[i]).0 != (
            #[trigger] a[j]).0 by {
                if j == m.len() {
                    middle.lemma_at(i);
                    assert(middle@.contains_key(m[i].0));
                } else {
                    assert(a[i] == m[i] && a[j] == m[j]);
                }
            }
            after.lemma_at(m.len() as int);
            let expected = before@.insert(w, request);
            assert forall|k: Waiting|
                #![trigger after@.dom().contains(k)]
                #![trigger expected.dom().contains(k)]
                #![trigger after@[k]]
                after@.dom().contains(k) == expected.dom().contains(k) && (
                after@.dom().contains(k) ==> after@[k] == expected[k]) by {
                if k != w {
                    if after@.contains_key(k) {
                        let p = after.place(k);
                        assert(after.is_at(k, p));
                        assert(a[p] == m[p]);
                        middle.lemma_at(p);
                        after.lemma_at(p);
                    }
                    if before@.contains_key(k) {
                        assert(middle@.contains_key(k));
                        let p = middle.place(k);
                        assert(middle.is_at(k, p));
                        assert(a[p] == m[p]);
                        after.lemma_at(p);
                        middle.lemma_at(p);
                    }
                }
            }
            assert(after@ =~= expected);
        }
        replaced
    }

    /// Takes out the request that waits for `w`, where there is one, together with the
    /// reply that it is told.
    pub fn deliver(&mut self, w: Waiting, reply: Reply) -> (r: Option<Delivery<W>>)
        requires
            old(self).wf(),
        ensures
            final(self).wf(),
            final(self)@ == old(self)@.remove(w),
            match r {
                Some(d) => old(self)@.contains_key(w) && d.to == old(self)@[w] && d.reply == reply,
                None => !old(self)@.contains_key(w),
            },
    {
        match self.take(w) {
            Some(to) => Some(Delivery { to, reply }),
            None => None,
        }
    }
}

} // verus!
