use vstd::prelude::*;

verus! {

/// The flag after a run of writes with the given outcomes, `true` for a
/// write that went through, starting from `disabled`.
pub open spec fn disabled_after(disabled: bool, outcomes: Seq<bool>) -> bool
    decreases outcomes.len(),
{
    if outcomes.len() == 0 {
        disabled
    } else {
        disabled_after(disabled || !outcomes[0], outcomes.drop_first())
    }
}

/// Once disabled, the channel stays disabled whatever the later outcomes; an
/// enabled channel ends up disabled exactly when one of the writes failed.
pub proof fn lemma_disable_is_permanent(outcomes: Seq<bool>)
    ensures
        disabled_after(true, outcomes),
        disabled_after(false, outcomes) == outcomes.contains(false),
    decreases outcomes.len(),
{
    if outcomes.len() > 0 {
        let rest = outcomes.drop_first();
        lemma_disable_is_permanent(rest);
        assert(outcomes == seq![outcomes[0]] + rest);
        if outcomes[0] {
            assert(outcomes.contains(false) == rest.contains(false)) by {
                if rest.contains(false) {
                    let j = choose|j: int| 0 <= j < rest.len() && rest[j] == false;
                    assert(outcomes[j + 1] == false);
                }
                if outcomes.contains(false) {
                    let j = choose|j: int| 0 <= j < outcomes.len() && outcomes[j] == false;
                    assert(rest[j - 1] == false);
                }
            }
        } else {
            assert(outcomes[0] == false);
        }
    }
}

/// Whether the serial channel has been shut off after a failed write.
///
/// The flag only ever goes from enabled to disabled: there is no way back.
#[derive(Debug)]
pub struct SerialRuntimeState {
    disabled: bool,
}

impl SerialRuntimeState {
    pub closed spec fn is_disabled_spec(&self) -> bool {
        self.disabled
    }

    /// A fresh state: the channel is enabled.
    pub fn new() -> (r: SerialRuntimeState)
        ensures
            !r.is_disabled_spec(),
    {
        SerialRuntimeState { disabled: false }
    }

    pub fn is_disabled(&self) -> (r: bool)
        ensures
            r == self.is_disabled_spec(),
    {
        self.disabled
    }

    /// Shut the channel off for good.
    pub fn disable(&mut self)
        ensures
            final(self).is_disabled_spec(),
    {
        self.disabled = true;
    }

    /// Record the outcome of one write: a failure disables the channel, a
    /// success leaves the flag as it was.
    pub fn record(&mut self, write_ok: bool)
        ensures
            final(self).is_disabled_spec() == (old(self).is_disabled_spec() || !write_ok),
            final(self).is_disabled_spec() == disabled_after(old(self).is_disabled_spec(), seq![write_ok]),
    {
        if !write_ok {
            self.disable();
        }
        proof {
            let outcomes = seq![write_ok];
            assert(outcomes.drop_first() =~= Seq::<bool>::empty());
            assert(disabled_after(old(self).is_disabled_spec() || !write_ok, outcomes.drop_first())
                == (old(self).is_disabled_spec() || !write_ok));
        }
    }
}

} // verus!
