//! The stop signal: the one channel through which a supervision loop is
//! steered.

use vstd::prelude::*;

verus! {

/// What a supervision loop is asked to do when it next looks at its signal.
#[derive(Clone, Copy, Debug, PartialEq, Eq, Structural)]
pub enum OnStop {
    /// Run the application (again).
    Restart,
    /// Stay idle until told otherwise.
    Sleep,
    /// Terminate for good.
    Exit,
}

/// The mathematical content of a [`StopSignal`].
pub struct SignalView {
    /// The intent sent last, or `Sleep` if none was sent.
    pub value: OnStop,
    /// Whether an intent was sent since the loop last observed the signal.
    pub changed: bool,
}

/// A signal that always has a current value and remembers whether its reader
/// has seen it.
///
/// Sending overwrites the value; intents are not queued. An observer always
/// gets the latest one.
#[derive(Clone, Copy, Debug)]
pub struct StopSignal {
    value: OnStop,
    changed: bool,
}

impl View for StopSignal {
    type V = SignalView;

    closed spec fn view(&self) -> SignalView {
        SignalView { value: self.value, changed: self.changed }
    }
}

impl SignalView {
    /// The signal of a loop that has not been told anything yet.
    pub open spec fn initial() -> SignalView {
        SignalView { value: OnStop::Sleep, changed: false }
    }

    /// The signal after `intent` was sent.
    pub open spec fn sent(self, intent: OnStop) -> SignalView {
        SignalView { value: intent, changed: true }
    }

    /// The signal after its reader looked at it.
    pub open spec fn observed(self) -> SignalView {
        SignalView { value: self.value, changed: false }
    }

    /// The signal after each intent of `intents` was sent in turn.
    pub open spec fn sent_all(self, intents: Seq<OnStop>) -> SignalView
        decreases intents.len(),
    {
        if intents.len() == 0 {
            self
        } else {
            self.sent_all(intents.drop_last()).sent(intents.last())
        }
    }
}

impl StopSignal {
    /// A fresh signal: `Sleep`, with nothing new to observe.
    pub fn new() -> (signal: StopSignal)
        ensures
            signal@ == SignalView::initial(),
    {
        StopSignal { value: OnStop::Sleep, changed: false }
    }

    /// Replaces the current intent and marks the signal as changed.
    pub fn send(&mut self, intent: OnStop)
        ensures
            final(self)@ == old(self)@.sent(intent),
    {
        self.value = intent;
        self.changed = true;
    }

    /// The current intent, without marking it as seen.
    pub fn borrow(&self) -> (intent: OnStop)
        ensures
            intent == self@.value,
    {
        self.value
    }

    /// Whether an intent was sent since the last `borrow_and_update`.
    pub fn has_changed(&self) -> (changed: bool)
        ensures
            changed == self@.changed,
    {
        self.changed
    }

    /// Reads the current intent and marks it as seen, in one step.
    pub fn borrow_and_update(&mut self) -> (intent: OnStop)
        ensures
            intent == old(self)@.value,
            final(self)@ == old(self)@.observed(),
    {
        self.changed = false;
        self.value
    }
}

/// However many intents are sent between two looks at the signal, the reader
/// observes the last of them, and only that one.
pub proof fn lemma_latest_intent_is_observed(signal: SignalView, intents: Seq<OnStop>)
    requires
        intents.len() > 0,
    ensures
        signal.sent_all(intents).value == intents.last(),
        signal.sent_all(intents).changed,
        signal.sent_all(intents).observed() == (SignalView {
            value: intents.last(),
            changed: false,
        }),
{
}

} // verus!
