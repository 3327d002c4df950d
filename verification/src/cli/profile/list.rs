//! The `profile list` subcommand: one table per profile.
use vstd::prelude::*;
use crate::cli::profile::info::{detail_rows, row_views, PropertyRow};
use crate::config::ProfileConfig;
use crate::text::{decimal, decimal_string};

verus! {

/// The table shown for one profile by `profile list`.
#[derive(Debug, PartialEq, Eq)]
pub struct ProfileListing {
    /// Whether the profile is the active one.
    pub active: bool,
    /// The rows: its number (from one), then its details.
    pub rows: Vec<PropertyRow>,
}

impl ProfileConfig {
    /// The tables of `profile list`, one per profile, in order.
    pub fn listing(&self) -> (r: Vec<ProfileListing>)
        ensures
            r@.len() == self.list@.len(),
            forall|i: int|
                0 <= i < r@.len() ==> (#[trigger] r@[i]).active == (self.active == Some(i as usize))
                    && row_views(r@[i].rows@) == seq![("Profile #"@, decimal((i + 1) as nat))]
                    + detail_rows(self.list@[i], r@[i].active),
            forall|i: int|
                0 <= i < r@.len() ==> (#[trigger] r@[i]).rows@.len() == 6 && r@[i].rows@[0].value@
                    == decimal((i + 1) as nat) && r@[i].rows@[2].value@ == self.list@[i].game.version@
                    && r@[i].rows@[3].value@ == self.list@[i].game.directory@ && r@[i].rows@[4].value@
                    == self.list@[i].mod_config.loader@,
    {
        let n = self.list.len();
        let mut r: Vec<ProfileListing> = Vec::new();
        let mut i: usize = 0;
        while i < n
            invariant
                i <= n == self.list@.len(),
                r@.len() == i,
                forall|k: int|
                    0 <= k < i ==> (#[trigger] r@[k]).active == (self.active == Some(k as usize))
                        && row_views(r@[k].rows@) == seq![("Profile #"@, decimal((k + 1) as nat))]
                        + detail_rows(self.list@[k], r@[k].active),
                forall|k: int|
                    0 <= k < i ==> (#[trigger] r@[k]).rows@.len() == 6 && r@[k].rows@[0].value@
                        == decimal((k + 1) as nat) && r@[k].rows@[2].value@
                        == self.list@[k].game.version@ && r@[k].rows@[3].value@
                        == self.list@[k].game.directory@ && r@[k].rows@[4].value@
                        == self.list@[k].mod_config.loader@,
            decreases n - i,
        {
            let active = self.is_active(i);
            let mut details = self.list[i].detail_rows(active);
            let mut rows: Vec<PropertyRow> = Vec::new();
            rows.push(PropertyRow { property: "Profile #".to_owned(), value: decimal_string(i + 1) });
            let ghost first = rows@;
            let ghost rest = details@;
            rows.append(&mut details);
            assert(rows@ == first + rest);
            assert(row_views(rows@) =~= row_views(first) + row_views(rest));
            assert(row_views(first) =~= seq![("Profile #"@, decimal((i + 1) as nat))]);
            proof {
                crate::cli::profile::info::lemma_detail_rows_verbatim(self.list@[i as int], active);
                let rv = row_views(rows@);
                assert(rv[0] == ("Profile #"@, decimal((i + 1) as nat)));
                assert(rv[2] == detail_rows(self.list@[i as int], active)[1]);
                assert(rv[3] == detail_rows(self.list@[i as int], active)[2]);
                assert(rv[4] == detail_rows(self.list@[i as int], active)[3]);
                assert(rows@[0].value@ == rv[0].1);
                assert(rows@[2].value@ == rv[2].1);
                assert(rows@[3].value@ == rv[3].1);
                assert(rows@[4].value@ == rv[4].1);
            }
            r.push(ProfileListing { active, rows });
            i = i + 1;
        }
        r
    }
}

} // verus!
