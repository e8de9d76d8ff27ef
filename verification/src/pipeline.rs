//! The record pipeline: selecting the holiday records that apply to the
//! requested date, and turning them into message entries keyed by location.

use vstd::prelude::*;
use crate::model::{Entry, EntryV, Holiday, HolidayV, holiday_applies};
use crate::location::{display_location, display_location_spec};
use crate::order::str_eq;
use crate::seqs::{deep, lemma_deep_push, lemma_deep_subrange, lemma_filter_take_step};

verus! {

/// The records of `hs` that apply to the requested date `d`, in input order.
pub open spec fn selected(hs: Seq<HolidayV>, d: Seq<char>) -> Seq<HolidayV> {
    hs.filter(|h: HolidayV| holiday_applies(h, d))
}

/// Selecting from the empty record sequence selects nothing.
proof fn lemma_selected_empty(d: Seq<char>)
    ensures
        selected(Seq::<HolidayV>::empty(), d) == Seq::<HolidayV>::empty(),
{
    reveal_with_fuel(Seq::filter, 1);
}

/// One loop step of the selection: extending the prefix by one record
/// appends it to the selection exactly when it applies.
proof fn lemma_selected_take_step(hs: Seq<HolidayV>, d: Seq<char>, i: int)
    requires
        0 <= i < hs.len(),
    ensures
        selected(hs.take(i + 1), d) == selected(hs.take(i), d) + (if holiday_applies(hs[i], d) {
            seq![hs[i]]
        } else {
            Seq::<HolidayV>::empty()
        }),
{
    lemma_filter_take_step(hs, |h: HolidayV| holiday_applies(h, d), i);
}

/// Decides whether one record applies to the requested date: its date field
/// matches `date` exactly and one of its category tags is allowed.
pub fn holiday_applies_exec(h: &Holiday, date: &str) -> (r: bool)
    ensures
        r == holiday_applies(h.deep_view(), date@),
{
    if !str_eq(h.date.as_str(), date) {
        return false;
    }
    let n = h.types.len();
    let mut j: usize = 0;
    while j < n
        invariant
            j <= n,
            n == h.types@.len(),
            h.deep_view().date == date@,
            forall|k: int|
                0 <= k < j ==> !crate::model::allowed_type(#[trigger] h.deep_view().types[k]),
        decreases n - j,
    {
        let t = &h.types[j];
        if str_eq(t.as_str(), "Public") || str_eq(t.as_str(), "Optional") {
            assert(crate::model::allowed_type(h.deep_view().types[j as int]));
            return true;
        }
        j = j + 1;
    }
    false
}

/// Keeps the records that apply to the requested date, in input order.
pub fn select_holidays(hs: Vec<Holiday>, date: &str) -> (r: Vec<Holiday>)
    ensures
        r.deep_view() == selected(hs.deep_view(), date@),
{
    let ghost orig_s: Seq<Holiday> = hs@;
    let ghost orig: Seq<HolidayV> = deep(orig_s);
    proof {
        assert(hs.deep_view() =~= orig);
    }
    let mut rest = hs;
    let mut r: Vec<Holiday> = Vec::new();
    let ghost mut i: int = 0;
    proof {
        lemma_selected_empty(date@);
        assert(orig.take(0) =~= Seq::<HolidayV>::empty());
        assert(deep(r@) =~= Seq::<HolidayV>::empty());
    }
    while rest.len() > 0
        invariant
            0 <= i <= orig.len(),
            deep(rest@) =~= orig.subrange(i, orig.len() as int),
            deep(r@) =~= selected(orig.take(i), date@),
        decreases rest@.len(),
    {
        let ghost old_rest_s: Seq<Holiday> = rest@;
        let ghost old_r_s: Seq<Holiday> = r@;
        proof {
            assert(deep(old_rest_s).len() == old_rest_s.len());
            assert(i < orig.len());
        }
        let h = rest.remove(0);
        proof {
            assert(rest@ =~= old_rest_s.subrange(1, old_rest_s.len() as int));
            lemma_deep_subrange(old_rest_s, 1, old_rest_s.len() as int);
            assert(deep(rest@) =~= orig.subrange(i + 1, orig.len() as int));
            assert(deep(old_rest_s)[0] == h.deep_view());
            assert(h.deep_view() == orig[i]);
        }
        let keep = holiday_applies_exec(&h, date);
        proof {
            lemma_selected_take_step(orig, date@, i);
        }
        if keep {
            r.push(h);
            proof {
                lemma_deep_push(old_r_s, h);
                assert(deep(r@) =~= selected(orig.take(i + 1), date@));
            }
        } else {
            proof {
                assert(deep(r@) =~= selected(orig.take(i + 1), date@));
            }
        }
        proof {
            i = i + 1;
        }
    }
    proof {
        assert(orig.take(orig.len() as int) =~= orig);
        assert(r.deep_view() =~= deep(r@));
    }
    r
}

/// The message entry a holiday record gives rise to: grouped and displayed
/// under its country's location key, the local name in bold, the reference
/// name in italics.
pub open spec fn entry_of_holiday(h: HolidayV) -> EntryV {
    EntryV {
        location: Some(display_location_spec(h.country_code)),
        primary: h.local_name,
        secondary: Some(h.name),
    }
}

/// The message entries of a record sequence, in order.
pub open spec fn entries_view(hs: Seq<HolidayV>) -> Seq<EntryV> {
    Seq::new(hs.len(), |i: int| entry_of_holiday(hs[i]))
}

/// Turns each record into its message entry, in order.
pub fn entries_of_holidays(hs: Vec<Holiday>) -> (r: Vec<Entry>)
    ensures
        r.deep_view() == entries_view(hs.deep_view()),
{
    let ghost orig_s: Seq<Holiday> = hs@;
    let ghost orig: Seq<HolidayV> = deep(orig_s);
    proof {
        assert(hs.deep_view() =~= orig);
    }
    let mut rest = hs;
    let mut r: Vec<Entry> = Vec::new();
    let ghost mut i: int = 0;
    while rest.len() > 0
        invariant
            0 <= i <= orig.len(),
            deep(rest@) =~= orig.subrange(i, orig.len() as int),
            deep(r@) =~= entries_view(orig.take(i)),
        decreases rest@.len(),
    {
        let ghost old_rest_s: Seq<Holiday> = rest@;
        let ghost old_r_s: Seq<Entry> = r@;
        proof {
            assert(deep(old_rest_s).len() == old_rest_s.len());
            assert(i < orig.len());
        }
        let h = rest.remove(0);
        proof {
            assert(rest@ =~= old_rest_s.subrange(1, old_rest_s.len() as int));
            lemma_deep_subrange(old_rest_s, 1, old_rest_s.len() as int);
            assert(deep(rest@) =~= orig.subrange(i + 1, orig.len() as int));
            assert(deep(old_rest_s)[0] == h.deep_view());
            assert(h.deep_view() == orig[i]);
        }
        let Holiday { date: _, name, local_name, types: _, counties: _, country_code } = h;
        let e = Entry {
            location: Some(display_location(country_code.as_str())),
            primary: local_name,
            secondary: Some(name),
        };
        proof {
            assert(e.deep_view() == entry_of_holiday(orig[i]));
        }
        r.push(e);
        proof {
            lemma_deep_push(old_r_s, e);
            i = i + 1;
            assert(deep(r@) =~= entries_view(orig.take(i)));
        }
    }
    proof {
        assert(orig.take(orig.len() as int) =~= orig);
        assert(r.deep_view() =~= deep(r@));
        assert(r.deep_view() =~= entries_view(orig));
    }
    r
}

} // verus!
