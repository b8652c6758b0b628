use vstd::prelude::*;

verus! {

/// Whether an active migration takes part in execution.
#[derive(Clone, Copy, Debug, PartialEq, Eq, Structural)]
pub enum Status {
    Enabled,
    Disabled,
}

impl Status {
    pub fn enabled() -> (r: Self)
        ensures
            r == Status::Enabled,
    {
        Status::Enabled
    }

    pub fn disabled() -> (r: Self)
        ensures
            r == Status::Disabled,
    {
        Status::Disabled
    }

    /// The variant's name, as it is shown to people.
    pub fn label(&self) -> (r: &'static str)
        ensures
            *self == Status::Enabled ==> r@ == "Enabled"@,
            *self == Status::Disabled ==> r@ == "Disabled"@,
    {
        match self {
            Status::Enabled => "Enabled",
            Status::Disabled => "Disabled",
        }
    }
}

impl Default for Status {
    fn default() -> (r: Self)
        ensures
            r == Status::Disabled,
    {
        Status::Disabled
    }
}

} // verus!
