//! The top of the pipeline: from the aggregated holiday records to the
//! JSON payload of the message, or to nothing when there is nothing to
//! announce.

use vstd::prelude::*;
use crate::group::{group_entries, groups_valid};
use crate::message::{blocks_of_groups, build_blocks};
use crate::model::{GroupV, Holiday};
use crate::pipeline::{entries_of_holidays, entries_view};
use crate::render::{json_of_blocks, render_message};

verus! {

/// Whether `payload` is the message for the records `hs`: the JSON of the
/// blocks of some (by [`crate::laws::lemma_groups_valid_unique`], the one)
/// correct aggregation of their entries.
pub open spec fn payload_for(hs: Seq<crate::model::HolidayV>, payload: Seq<char>) -> bool {
    exists|gs: Seq<GroupV>|
        groups_valid(entries_view(hs), gs) && payload == json_of_blocks(blocks_of_groups(gs))
}

/// Builds the message payload for the aggregated records: `None` when
/// there are no records — nothing is to be sent then — and otherwise the
/// JSON payload of the grouped, sorted and rendered message.
pub fn notification_payload(holidays: Vec<Holiday>) -> (r: Option<String>)
    ensures
        r is Some <==> holidays@.len() > 0,
        r matches Some(s) ==> payload_for(holidays.deep_view(), s@),
{
    if holidays.is_empty() {
        return None;
    }
    let ghost hv = holidays.deep_view();
    let entries = entries_of_holidays(holidays);
    let groups = group_entries(&entries);
    let ghost gv: Seq<GroupV> = groups.deep_view();
    let blocks = build_blocks(groups);
    let payload = render_message(&blocks);
    proof {
        assert(groups_valid(entries_view(hv), gv));
        assert(payload@ == json_of_blocks(blocks_of_groups(gv)));
        assert(payload_for(hv, payload@));
    }
    Some(payload)
}

} // verus!
