//! Fan-out from one producer to the recipients that were registered with it
//! before its run loop began.

use vstd::prelude::*;

verus! {

/// One registered recipient: the handle of its channel, and whether the
/// channel still takes messages.
pub struct Recipient<T> {
    pub handle: T,
    pub open: bool,
}

/// The value of a `Fanout`: the recipients in the order of their
/// registration, and whether the run loop has begun.
pub struct FanoutView<T> {
    pub recipients: Seq<Recipient<T>>,
    pub started: bool,
}

/// The recipients of a producer. They are registered while the producer is
/// set up; once its run loop has begun, no recipient is added.
pub struct Fanout<T> {
    recipients: Vec<Recipient<T>>,
    started: bool,
}

impl<T> View for Fanout<T> {
    type V = FanoutView<T>;

    closed spec fn view(&self) -> FanoutView<T> {
        FanoutView { recipients: self.recipients@, started: self.started }
    }
}

/// The indices of the recipients that are open, in ascending order: those
/// that a message is sent to.
pub open spec fn open_targets<T>(recipients: Seq<Recipient<T>>) -> Seq<usize>
    decreases recipients.len(),
{
    if recipients.len() == 0 {
        Seq::empty()
    } else if recipients.last().open {
        open_targets(recipients.drop_last()).push((recipients.len() - 1) as usize)
    } else {
        open_targets(recipients.drop_last())
    }
}

/// The recipients with the one at `index` closed; the same recipients
/// where there is none at `index`.
pub open spec fn with_closed<T>(recipients: Seq<Recipient<T>>, index: int) -> Seq<Recipient<T>> {
    if 0 <= index < recipients.len() {
        recipients.update(index, Recipient { handle: recipients[index].handle, open: false })
    } else {
        recipients
    }
}

impl<T> Fanout<T> {
    /// A producer's recipients before any is registered.
    pub fn new() -> (fanout: Fanout<T>)
        ensures
            fanout@.recipients.len() == 0,
            !fanout@.started,
    {
        Fanout { recipients: Vec::new(), started: false }
    }

    /// Registers one more recipient, open, behind those that are there, and
    /// returns its index. Once the run loop has begun the registration is
    /// refused: nothing changes and the handle comes back.
    pub fn add_recipient(&mut self, handle: T) -> (added: Result<usize, T>)
        ensures
            final(self)@.started == old(self)@.started,
            match added {
                Ok(index) => !old(self)@.started && index == old(self)@.recipients.len()
                    && final(self)@.recipients == old(self)@.recipients.push(
                    Recipient { handle, open: true },
                ),
                Err(refused) => old(self)@.started && refused == handle && final(self)@ == old(
                    self,
                )@,
            },
    {
        if self.started {
            Err(handle)
        } else {
            let index = self.recipients.len();
            self.recipients.push(Recipient { handle, open: true });
            Ok(index)
        }
    }

    /// Marks the beginning of the run loop.
    pub fn start(&mut self)
        ensures
            final(self)@.started,
            final(self)@.recipients == old(self)@.recipients,
    {
        self.started = true;
    }

    /// Whether the run loop has begun.
    pub fn started(&self) -> (started: bool)
        ensures
            started == self@.started,
    {
        self.started
    }

    /// The number of registered recipients.
    pub fn len(&self) -> (count: usize)
        ensures
            count == self@.recipients.len(),
    {
        self.recipients.len()
    }

    /// The handle of the recipient at `index`, if there is one.
    pub fn handle(&self, index: usize) -> (handle: Option<&T>)
        ensures
            handle == if index < self@.recipients.len() {
                Some(&self@.recipients[index as int].handle)
            } else {
                None
            },
    {
        if index < self.recipients.len() {
            Some(&self.recipients[index].handle)
        } else {
            None
        }
    }

    /// Whether there is a recipient at `index` that is open.
    pub fn is_open(&self, index: usize) -> (open: bool)
        ensures
            open == (index < self@.recipients.len() && self@.recipients[index as int].open),
    {
        index < self.recipients.len() && self.recipients[index].open
    }

    /// Closes the recipient at `index`: from now on nothing is sent to it.
    /// Where there is no recipient at `index`, nothing changes.
    pub fn close(&mut self, index: usize)
        ensures
            final(self)@.started == old(self)@.started,
            final(self)@.recipients == with_closed(old(self)@.recipients, index as int),
    {
        if index < self.recipients.len() {
            self.recipients[index].open = false;
            assert(self@.recipients =~= with_closed(old(self)@.recipients, index as int));
        }
    }

    /// The indices of the recipients that a message is sent to: the open
    /// ones, in the order of their registration.
    pub fn targets(&self) -> (targets: Vec<usize>)
        ensures
            targets@ == open_targets(self@.recipients),
    {
        let mut targets: Vec<usize> = Vec::new();
        let mut i: usize = 0;
        assert(self.recipients@.take(0) =~= Seq::<Recipient<T>>::empty());
        while i < self.recipients.len()
            invariant
                i <= self.recipients@.len(),
                targets@ == open_targets(self.recipients@.take(i as int)),
            decreases self.recipients@.len() - i,
        {
            proof {
                let taken = self.recipients@.take(i + 1);
                assert(taken.drop_last() =~= self.recipients@.take(i as int));
                assert(taken.last() == self.recipients@[i as int]);
            }
            if self.recipients[i].open {
                targets.push(i);
            }
            i += 1;
        }
        assert(self.recipients@.take(i as int) =~= self.recipients@);
        targets
    }
}

/// A target is the index of an open recipient, and every open recipient
/// is a target.
pub proof fn lemma_targets_are_the_open<T>(recipients: Seq<Recipient<T>>)
    requires
        recipients.len() <= usize::MAX,
    ensures
        forall|k: int|
            0 <= k < open_targets(recipients).len() ==> (#[trigger] open_targets(recipients)[k])
                < recipients.len() && recipients[open_targets(recipients)[k] as int].open,
        forall|i: int|
            0 <= i < recipients.len() && #[trigger] recipients[i].open ==> exists|k: int|
                0 <= k < open_targets(recipients).len() && #[trigger] open_targets(recipients)[k]
                    == i,
    decreases recipients.len(),
{
    if recipients.len() > 0 {
        let before = recipients.drop_last();
        let last = recipients.len() - 1;
        lemma_targets_are_the_open(before);
        let targets = open_targets(recipients);
        assert forall|k: int| 0 <= k < targets.len() implies (#[trigger] targets[k])
            < recipients.len() && recipients[targets[k] as int].open by {
            if k < open_targets(before).len() {
                assert(targets[k] == open_targets(before)[k]);
                assert(before[targets[k] as int] == recipients[targets[k] as int]);
            }
        }
        assert forall|i: int|
            0 <= i < recipients.len() && #[trigger] recipients[i].open implies exists|k: int|
            0 <= k < targets.len() && #[trigger] targets[k] == i by {
            if i < last {
                assert(before[i].open);
                let k = choose|k: int|
                    0 <= k < open_targets(before).len() && #[trigger] open_targets(before)[k] == i;
                assert(targets[k] == i);
            } else {
                assert(targets[targets.len() - 1] == i);
            }
        }
    }
}

/// Where no recipient is open there is no target: the producer sends
/// nothing, whatever it has to deliver, and so never waits for a recipient.
pub proof fn lemma_no_open_recipient_no_target<T>(recipients: Seq<Recipient<T>>)
    requires
        forall|i: int| 0 <= i < recipients.len() ==> !recipients[i].open,
    ensures
        open_targets(recipients).len() == 0,
    decreases recipients.len(),
{
    if recipients.len() > 0 {
        lemma_no_open_recipient_no_target(recipients.drop_last());
    }
}

} // verus!
