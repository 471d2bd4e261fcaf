use vstd::prelude::*;

verus! {

/// Data that an erasure deliberately leaves in place.
#[derive(Clone, Copy, Debug, PartialEq, Eq, Structural)]
pub enum UserDataErasureExclusion {
    CredentialsKeychain,
    UserPreferences,
    NetworkCache,
}

impl UserDataErasureExclusion {
    /// Every exclusion.
    pub const ALL: [Self; 3] = [Self::CredentialsKeychain, Self::UserPreferences, Self::NetworkCache];

    /// Why the excluded data is not erased.
    pub open spec fn reason(self) -> Seq<char> {
        match self {
            Self::CredentialsKeychain => "authentication secret, not product-generated data"@,
            Self::UserPreferences => "retained non-product settings; product projection is erased"@,
            Self::NetworkCache => "operating-system cache with no authoritative product state"@,
        }
    }

    /// Why the excluded data is not erased; never empty.
    pub fn rationale(self) -> (text: &'static str)
        ensures
            text@ == self.reason(),
            text@.len() > 0,
    {
        proof {
            reveal_strlit("authentication secret, not product-generated data");
            reveal_strlit("retained non-product settings; product projection is erased");
            reveal_strlit("operating-system cache with no authoritative product state");
        }
        match self {
            Self::CredentialsKeychain => "authentication secret, not product-generated data",
            Self::UserPreferences => "retained non-product settings; product projection is erased",
            Self::NetworkCache => "operating-system cache with no authoritative product state",
        }
    }
}

} // verus!
