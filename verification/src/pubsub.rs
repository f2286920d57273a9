//! A publish/subscribe registry: for each channel name the listeners that
//! subscribed to it, in the order of subscription.

use crate::text::str_eq;
use tokio::sync::mpsc::{UnboundedReceiver, UnboundedSender};
use vstd::prelude::*;

verus! {

/// The sending half of tokio's unbounded channel, carried through unread.
#[verifier::external_type_specification]
#[verifier::external_body]
#[verifier::reject_recursive_types(T)]
pub struct ExUnboundedSender<T>(UnboundedSender<T>);

/// The receiving half of tokio's unbounded channel, carried through unread.
#[verifier::external_type_specification]
#[verifier::external_body]
#[verifier::reject_recursive_types(T)]
pub struct ExUnboundedReceiver<T>(UnboundedReceiver<T>);

/// Calls `tokio::sync::mpsc::unbounded_channel`. Nothing is claimed of the
/// two halves.
#[verifier::external_body]
fn open_channel() -> (halves: (UnboundedSender<String>, UnboundedReceiver<String>)) {
    tokio::sync::mpsc::unbounded_channel()
}

/// Calls `UnboundedSender::send` with a copy of `msg` and tells whether the
/// message was taken. That depends on whether the receiving half is still
/// open, so nothing is claimed of the answer.
#[verifier::external_body]
fn deliver(listener: &UnboundedSender<String>, msg: &str) -> (taken: bool) {
    listener.send(msg.to_string()).is_ok()
}

/// The items whose flag is set, in order. An item without a flag counts as
/// not flagged.
pub open spec fn kept<T>(items: Seq<T>, flags: Seq<bool>) -> Seq<T>
    decreases items.len(),
{
    if items.len() == 0 {
        Seq::empty()
    } else {
        let rest = kept(items.drop_last(), flags);
        if items.len() <= flags.len() && flags[items.len() - 1] {
            rest.push(items.last())
        } else {
            rest
        }
    }
}

/// Whether `after` is what remains of `before` once some of its items were
/// dropped.
pub open spec fn pruned_from<T>(after: Seq<T>, before: Seq<T>) -> bool {
    exists|flags: Seq<bool>| flags.len() == before.len() && after == #[trigger] kept(before, flags)
}

/// Keeps the items whose flag is set and drops the others.
pub fn retain_flagged<T>(items: Vec<T>, flags: &Vec<bool>) -> (out: Vec<T>)
    ensures
        out@ == kept(items@, flags@),
{
    let mut out: Vec<T> = Vec::new();
    let ghost all = items@;
    assert(all.len() == items.len());
    let mut i: usize = 0;
    for item in it: items
        invariant
            i == it.index(),
            it.seq() == all,
            all.len() <= usize::MAX,
            out@ == kept(all.take(i as int), flags@),
    {
        proof {
            assert(all.take(i + 1).drop_last() =~= all.take(i as int));
            assert(all.take(i + 1).last() == item);
        }
        if i < flags.len() && flags[i] {
            out.push(item);
        }
        i += 1;
    }
    assert(all.take(all.len() as int) =~= all);
    out
}

/// The listeners of each channel.
pub struct PubSub {
    subs: Vec<(String, Vec<UnboundedSender<String>>)>,
}

impl PubSub {
    /// The channel names held, each with its listeners.
    pub closed spec fn entries(&self) -> Seq<(Seq<char>, Seq<UnboundedSender<String>>)> {
        Seq::new(self.subs@.len(), |i: int| (self.subs@[i].0@, self.subs@[i].1@))
    }

    /// The invariant of the registry: no channel name is held twice.
    pub open spec fn wf(&self) -> bool {
        forall|i: int, j: int|
            0 <= i < j < self.entries().len() ==> (#[trigger] self.entries()[i]).0 != (
            #[trigger] self.entries()[j]).0
    }

    /// The listeners of `channel`, in the order of subscription; none for a
    /// channel that nobody subscribed to.
    pub open spec fn listeners(&self, channel: Seq<char>) -> Seq<UnboundedSender<String>> {
        if exists|i: int| 0 <= i < self.entries().len() && (#[trigger] self.entries()[i]).0 == channel {
            let i = choose|i: int|
                0 <= i < self.entries().len() && (#[trigger] self.entries()[i]).0 == channel;
            self.entries()[i].1
        } else {
            Seq::empty()
        }
    }

    /// A registry without listeners.
    pub fn new() -> (p: Self)
        ensures
            p.wf(),
            forall|c: Seq<char>| #[trigger] p.listeners(c) == Seq::<UnboundedSender<String>>::empty(),
    {
        PubSub { subs: Vec::new() }
    }

    /// Where `channel` is held, if it is.
    fn position(&self, channel: &str) -> (r: Option<usize>)
        ensures
            match r {
                Some(i) => i < self.entries().len() && self.entries()[i as int].0 == channel@,
                None => forall|j: int|
                    0 <= j < self.entries().len() ==> (#[trigger] self.entries()[j]).0 != channel@,
            },
    {
        let mut i: usize = 0;
        while i < self.subs.len()
            invariant
                i <= self.subs.len(),
                forall|j: int| 0 <= j < i ==> (#[trigger] self.entries()[j]).0 != channel@,
            decreases self.subs.len() - i,
        {
            if str_eq(self.subs[i].0.as_str(), channel) {
                return Some(i);
            }
            i += 1;
        }
        None
    }

    /// With distinct names, the listeners of a channel are those of the one
    /// entry that carries its name.
    proof fn lemma_listeners_at(&self, i: int)
        requires
            self.wf(),
            0 <= i < self.entries().len(),
        ensures
            self.listeners(self.entries()[i].0) == self.entries()[i].1,
    {
        let c = self.entries()[i].0;
        let j = choose|j: int| 0 <= j < self.entries().len() && (#[trigger] self.entries()[j]).0 == c;
        if j < i {
            assert(self.entries()[j].0 != self.entries()[i].0);
        } else if i < j {
            assert(self.entries()[i].0 != self.entries()[j].0);
        }
    }

    /// How many listeners `channel` has.
    pub fn listener_count(&self, channel: &str) -> (n: usize)
        requires
            self.wf(),
        ensures
            n == self.listeners(channel@).len(),
    {
        match self.position(channel) {
            Some(i) => {
                proof {
                    self.lemma_listeners_at(i as int);
                }
                self.subs[i].1.len()
            },
            None => 0,
        }
    }

    /// Adds a listener to `channel` and hands out the receiving half on
    /// which its messages arrive.
    pub fn subscribe(&mut self, channel: &str) -> (rx: UnboundedReceiver<String>)
        requires
            old(self).wf(),
        ensures
            final(self).wf(),
            final(self).listeners(channel@).len() == old(self).listeners(channel@).len() + 1,
            final(self).listeners(channel@).drop_last() == old(self).listeners(channel@),
            forall|c: Seq<char>|
                c != channel@ ==> #[trigger] final(self).listeners(c) == old(self).listeners(c),
    {
        let (tx, rx) = open_channel();
        match self.position(channel) {
            Some(i) => {
                let (name, mut list) = self.subs.remove(i);
                list.push(tx);
                self.subs.insert(i, (name, list));
                proof {
                    self.lemma_replaced_at(*old(self), i as int);
                    assert(self.entries()[i as int].1.drop_last() =~= old(self).entries()[i as int].1);
                }
            },
            None => {
                let mut list: Vec<UnboundedSender<String>> = Vec::new();
                list.push(tx);
                self.subs.push((channel.to_owned(), list));
                proof {
                    let n = old(self).entries().len() as int;
                    assert(self.entries() =~= old(self).entries().push((channel@, list@)));
                    assert forall|a: int, b: int| 0 <= a < b < self.entries().len() implies (
                    #[trigger] self.entries()[a]).0 != (#[trigger] self.entries()[b]).0 by {
                        assert(self.entries()[a] == old(self).entries()[a]);
                        if b < n {
                            assert(self.entries()[b] == old(self).entries()[b]);
                        }
                    }
                    self.lemma_listeners_at(n);
                    assert(list@.drop_last() =~= Seq::<UnboundedSender<String>>::empty());
                    assert forall|c: Seq<char>| c != channel@ implies #[trigger] self.listeners(c)
                        == old(self).listeners(c) by {
                        if exists|j: int|
                            0 <= j < old(self).entries().len() && (#[trigger] old(
                                self,
                            ).entries()[j]).0 == c {
                            let j = choose|j: int|
                                0 <= j < old(self).entries().len() && (#[trigger] old(
                                    self,
                                ).entries()[j]).0 == c;
                            old(self).lemma_listeners_at(j);
                            assert(self.entries()[j] == old(self).entries()[j]);
                            self.lemma_listeners_at(j);
                        } else {
                            if exists|j: int|
                                0 <= j < self.entries().len() && (#[trigger] self.entries()[j]).0 == c {
                                let j = choose|j: int|
                                    0 <= j < self.entries().len() && (#[trigger] self.entries()[j]).0
                                        == c;
                                assert(j < n);
                                assert(self.entries()[j] == old(self).entries()[j]);
                            }
                        }
                    }
                }
            },
        }
        rx
    }

    /// Where two registries differ in nothing but the listeners held at
    /// position `i`, the later one is well formed and every other channel
    /// has the listeners it had.
    proof fn lemma_replaced_at(&self, before: PubSub, i: int)
        requires
            before.wf(),
            0 <= i < before.entries().len(),
            self.entries().len() == before.entries().len(),
            forall|j: int|
                0 <= j < before.entries().len() ==> (#[trigger] self.entries()[j]).0
                    == before.entries()[j].0,
            forall|j: int|
                0 <= j < before.entries().len() && j != i ==> (#[trigger] self.entries()[j]).1
                    == before.entries()[j].1,
        ensures
            self.wf(),
            self.listeners(before.entries()[i].0) == self.entries()[i].1,
            before.listeners(before.entries()[i].0) == before.entries()[i].1,
            forall|c: Seq<char>|
                c != before.entries()[i].0 ==> #[trigger] self.listeners(c) == before.listeners(c),
    {
        assert forall|a: int, b: int| 0 <= a < b < self.entries().len() implies (
        #[trigger] self.entries()[a]).0 != (#[trigger] self.entries()[b]).0 by {
            assert(before.entries()[a].0 != before.entries()[b].0);
        }
        self.lemma_listeners_at(i);
        before.lemma_listeners_at(i);
        assert forall|c: Seq<char>| c != before.entries()[i].0 implies #[trigger] self.listeners(c)
            == before.listeners(c) by {
            if exists|j: int|
                0 <= j < before.entries().len() && (#[trigger] before.entries()[j]).0 == c {
                let j = choose|j: int|
                    0 <= j < before.entries().len() && (#[trigger] before.entries()[j]).0 == c;
                before.lemma_listeners_at(j);
                assert(self.entries()[j].0 == c);
                self.lemma_listeners_at(j);
            } else {
                if exists|j: int|
                    0 <= j < self.entries().len() && (#[trigger] self.entries()[j]).0 == c {
                    let j = choose|j: int|
                        0 <= j < self.entries().len() && (#[trigger] self.entries()[j]).0 == c;
                    assert(before.entries()[j].0 == c);
                }
            }
        }
    }

    /// Sends `msg` to every listener of `channel`, in the order of
    /// subscription, and drops the listeners that did not take it. Which
    /// ones take it is decided by the receiving halves.
    pub fn publish(&mut self, channel: &str, msg: &str)
        requires
            old(self).wf(),
        ensures
            final(self).wf(),
            pruned_from(final(self).listeners(channel@), old(self).listeners(channel@)),
            forall|c: Seq<char>|
                c != channel@ ==> #[trigger] final(self).listeners(c) == old(self).listeners(c),
    {
        match self.position(channel) {
            Some(i) => {
                let (name, list) = self.subs.remove(i);
                let flags = deliver_all(&list, msg);
                let ghost before = list@;
                let remaining = retain_flagged(list, &flags);
                self.subs.insert(i, (name, remaining));
                proof {
                    self.lemma_replaced_at(*old(self), i as int);
                    assert(self.entries()[i as int].1 == kept(before, flags@));
                }
            },
            None => {
                proof {
                    let none = Seq::<bool>::empty();
                    assert(old(self).listeners(channel@) =~= Seq::empty());
                    assert(kept(old(self).listeners(channel@), none) =~= old(self).listeners(
                        channel@,
                    ));
                }
            },
        }
    }
}

/// Offers `msg` to each listener in turn and notes which of them took it.
fn deliver_all(listeners: &Vec<UnboundedSender<String>>, msg: &str) -> (flags: Vec<bool>)
    ensures
        flags.len() == listeners.len(),
{
    let mut flags: Vec<bool> = Vec::new();
    let mut i: usize = 0;
    while i < listeners.len()
        invariant
            i <= listeners.len(),
            flags.len() == i,
        decreases listeners.len() - i,
    {
        flags.push(deliver(&listeners[i], msg));
        i += 1;
    }
    flags
}

} // verus!
