//! Spaces: each one runs its own game among its members.
use vstd::prelude::*;

verus! {

/// A space and its settings.
#[derive(Debug)]
pub struct Tenant {
    pub id: u128,
    pub slug: String,
    pub name: String,
    /// Code of the competition the space follows.
    pub football_competition: String,
    /// Whether members who are no admins may invite.
    pub members_can_invite: bool,
    /// Whether the space plays with jokers.
    pub jokers_enabled: bool,
    /// How long before kickoff members are reminded to bet.
    pub reminder_lead_minutes: i64,
}

} // verus!
