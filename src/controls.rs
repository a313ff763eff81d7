use vstd::prelude::*;

verus! {

/// The settings one password is generated under.
pub struct Controls {
    /// Number of characters in the password.
    pub pwlen: usize,
    pub digits: bool,
    pub upper: bool,
    pub lower: bool,
    pub special: bool,
    pub more: bool,
    /// Drop the easily confused characters `l`, `O`, `1`, `0` and `|` from the pool.
    pub reduce: bool,
    /// Characters that never enter the pool.
    pub forbidden: Vec<char>,
}

/// The mathematical value of a [`Controls`].
pub ghost struct ControlsModel {
    pub pwlen: nat,
    pub digits: bool,
    pub upper: bool,
    pub lower: bool,
    pub special: bool,
    pub more: bool,
    pub reduce: bool,
    pub forbidden: Seq<char>,
}

impl View for Controls {
    type V = ControlsModel;

    open spec fn view(&self) -> ControlsModel {
        ControlsModel {
            pwlen: self.pwlen as nat,
            digits: self.digits,
            upper: self.upper,
            lower: self.lower,
            special: self.special,
            more: self.more,
            reduce: self.reduce,
            forbidden: self.forbidden@,
        }
    }
}

impl ControlsModel {
    /// A usable setting asks for at least one character.
    pub open spec fn wf(self) -> bool {
        self.pwlen > 0
    }
}

} // verus!
