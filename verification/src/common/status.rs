//! The global status of a contract and the checks made against it.
use vstd::prelude::*;

verus! {

/// Normal - all operations allowed except migrations
///
/// Deprecated - only time migrations are allowed, other permitted operations TBD by target
///
/// Frozen - only status change allowed
#[derive(Clone, Copy, Debug, PartialEq, Eq, Structural)]
pub enum ContractStatus {
    Normal,
    Deprecated,
    Frozen,
}

impl ContractStatus {
    pub fn default() -> (r: Self)
        ensures
            r == ContractStatus::Normal,
    {
        ContractStatus::Normal
    }

    pub fn is_deprecated(&self) -> (r: bool)
        ensures
            r == (*self == ContractStatus::Deprecated),
    {
        *self == ContractStatus::Deprecated
    }

    pub fn is_frozen(&self) -> (r: bool)
        ensures
            r == (*self == ContractStatus::Frozen),
    {
        *self == ContractStatus::Frozen
    }

    pub fn is_normal(&self) -> (r: bool)
        ensures
            r == (*self == ContractStatus::Normal),
    {
        *self == ContractStatus::Normal
    }

    /// Whether an operation allowed in the given statuses may run now.
    pub open spec fn can_run(&self, when_normal: bool, when_deprecated: bool, when_frozen: bool) -> bool {
        match *self {
            ContractStatus::Normal => when_normal,
            ContractStatus::Deprecated => when_deprecated,
            ContractStatus::Frozen => when_frozen,
        }
    }

    /// Throws an error if some function cannot be run under the following conditions.
    pub fn require_can_run<T>(
        &self,
        when_normal: bool,
        when_deprecated: bool,
        when_frozen: bool,
        normal_err: T,
        deprecated_err: T,
        frozen_err: T,
    ) -> (r: Result<(), T>)
        ensures
            r is Ok <==> self.can_run(when_normal, when_deprecated, when_frozen),
            (*self == ContractStatus::Normal && !when_normal) ==> r == Err::<(), T>(normal_err),
            (*self == ContractStatus::Deprecated && !when_deprecated) ==> r == Err::<(), T>(
                deprecated_err,
            ),
            (*self == ContractStatus::Frozen && !when_frozen) ==> r == Err::<(), T>(frozen_err),
    {
        if self.is_normal() && !when_normal {
            return Err(normal_err);
        }
        if self.is_deprecated() && !when_deprecated {
            return Err(deprecated_err);
        }
        if self.is_frozen() && !when_frozen {
            return Err(frozen_err);
        }
        Ok(())
    }
}

/// The errors that a contract with a global status reports, and the check of
/// an operation against the stored status.
pub trait GlobalStatus<T>: Sized {
    /// The error for an operation not allowed in the normal status.
    spec fn normal_error(&self) -> T;

    /// The error for an operation not allowed in the deprecated status.
    spec fn deprecated_error(&self) -> T;

    /// The error for an operation not allowed in the frozen status.
    spec fn frozen_error(&self) -> T;

    /// `e` is the error for a contract with no stored status.
    spec fn is_not_found_error(&self, e: T) -> bool;

    fn normal_err(&self) -> (e: T)
        ensures
            e == self.normal_error(),
    ;

    fn deprecated_err(&self) -> (e: T)
        ensures
            e == self.deprecated_error(),
    ;

    fn frozen_err(&self) -> (e: T)
        ensures
            e == self.frozen_error(),
    ;

    fn not_found(&self) -> (e: T)
        ensures
            self.is_not_found_error(e),
    ;

    /// Checks an operation against the stored status; `stored` is what the
    /// status item of the contract's storage holds, `None` where nothing is
    /// stored.
    fn require_can_run(
        &self,
        stored: Option<ContractStatus>,
        when_normal: bool,
        when_deprecated: bool,
        when_frozen: bool,
    ) -> (r: Result<&Self, T>)
        ensures
            r is Ok <==> (stored matches Some(s) && s.can_run(
                when_normal,
                when_deprecated,
                when_frozen,
            )),
            r matches Ok(s) ==> s == self,
            stored is None ==> (r matches Err(e) && self.is_not_found_error(e)),
            stored == Some(ContractStatus::Normal) && !when_normal ==> r == Err::<&Self, T>(self.normal_error()),
            stored == Some(ContractStatus::Deprecated) && !when_deprecated ==> r == Err::<&Self, T>(
                self.deprecated_error(),
            ),
            stored == Some(ContractStatus::Frozen) && !when_frozen ==> r == Err::<&Self, T>(self.frozen_error()),
    {
        match stored {
            Some(status) => {
                let n = self.normal_err();
                let d = self.deprecated_err();
                let f = self.frozen_err();
                match status.require_can_run(when_normal, when_deprecated, when_frozen, n, d, f) {
                    Ok(()) => Ok(self),
                    Err(e) => Err(e),
                }
            },
            None => Err(self.not_found()),
        }
    }
}

} // verus!
