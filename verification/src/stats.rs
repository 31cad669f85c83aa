//! Point-in-time observations of the game: who holds the flag and the
//! cumulative score of every participant.

use crate::scores::ScoreMap;
use vstd::prelude::*;

verus! {

/// Information about the current flag holder.
#[derive(Clone)]
pub struct StatsFlag {
    pub holder_id: String,
    pub holder_name: String,
    pub holder_platform: String,
}

/// Information about the current state of the game: the flag holder, the
/// cumulative score of every participant, and their display names.
#[derive(Clone)]
pub struct Stats {
    pub flag: StatsFlag,
    pub user_times: ScoreMap,
    pub users: Vec<(String, String)>,
}

impl Stats {
    /// A snapshot is well formed when its score table is.
    pub open spec fn wf(&self) -> bool {
        self.user_times.wf()
    }

    /// The same snapshot with the flag information replaced: holder identity
    /// is fresher than the cached aggregate scores, so it is overlaid.
    pub fn with_flag(self, flag: StatsFlag) -> (r: Stats)
        ensures
            r.flag == flag,
            r.user_times == self.user_times,
            r.users == self.users,
    {
        Stats { flag, user_times: self.user_times, users: self.users }
    }
}

} // verus!
