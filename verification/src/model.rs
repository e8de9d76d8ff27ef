//! Data model: holiday records as the data source reports them, and the
//! location-keyed entries that the message is built from.

use vstd::prelude::*;

verus! {

/// One public-holiday record for one country, as decoded from the data
/// source's response.
#[derive(Debug)]
pub struct Holiday {
    /// Date the holiday falls on, in `YYYY-MM-DD` form.
    pub date: String,
    /// Display name in the reference language.
    pub name: String,
    /// Name in the local language.
    pub local_name: String,
    /// Category tags of the holiday, such as `Public`.
    pub types: Vec<String>,
    /// Sub-national regions the holiday is limited to, when not nationwide.
    pub counties: Option<Vec<String>>,
    /// Two-letter country code the record belongs to.
    pub country_code: String,
}

/// Mathematical image of a [`Holiday`]: every text field as a character
/// sequence.
#[verifier::ext_equal]
pub struct HolidayV {
    pub date: Seq<char>,
    pub name: Seq<char>,
    pub local_name: Seq<char>,
    pub types: Seq<Seq<char>>,
    pub counties: Option<Seq<Seq<char>>>,
    pub country_code: Seq<char>,
}

impl DeepView for Holiday {
    type V = HolidayV;

    open spec fn deep_view(&self) -> HolidayV {
        HolidayV {
            date: self.date.deep_view(),
            name: self.name.deep_view(),
            local_name: self.local_name.deep_view(),
            types: self.types.deep_view(),
            counties: self.counties.deep_view(),
            country_code: self.country_code.deep_view(),
        }
    }
}

/// One line-to-be of the message: an optional grouping location, the text
/// rendered in bold, and the optional text rendered in italics after it.
#[derive(Debug)]
pub struct Entry {
    /// Location key the entry is grouped under; an absent or empty location
    /// excludes the entry from the message.
    pub location: Option<String>,
    /// Primary name, rendered in bold.
    pub primary: String,
    /// Secondary name, rendered in italics in parentheses, when present.
    pub secondary: Option<String>,
}

/// Mathematical image of an [`Entry`].
#[verifier::ext_equal]
pub struct EntryV {
    pub location: Option<Seq<char>>,
    pub primary: Seq<char>,
    pub secondary: Option<Seq<char>>,
}

impl DeepView for Entry {
    type V = EntryV;

    open spec fn deep_view(&self) -> EntryV {
        EntryV {
            location: self.location.deep_view(),
            primary: self.primary.deep_view(),
            secondary: self.secondary.deep_view(),
        }
    }
}

impl Clone for Entry {
    /// Clones an entry; the copy carries the same texts.
    fn clone(&self) -> (r: Self)
        ensures
            r.deep_view() == self.deep_view(),
    {
        Entry {
            location: match &self.location {
                Some(l) => Some(l.clone()),
                None => None,
            },
            primary: self.primary.clone(),
            secondary: match &self.secondary {
                Some(s) => Some(s.clone()),
                None => None,
            },
        }
    }
}

/// One location section of the message: the location key and the entries
/// grouped under it, in input order.
#[derive(Debug)]
pub struct Group {
    pub key: String,
    pub entries: Vec<Entry>,
}

/// Mathematical image of a [`Group`].
#[verifier::ext_equal]
pub struct GroupV {
    pub key: Seq<char>,
    pub entries: Seq<EntryV>,
}

impl DeepView for Group {
    type V = GroupV;

    open spec fn deep_view(&self) -> GroupV {
        GroupV { key: self.key.deep_view(), entries: self.entries.deep_view() }
    }
}

/// The key an entry is grouped under: its location, unless that is absent
/// or empty, in which case the entry belongs to no group.
pub open spec fn entry_key(e: EntryV) -> Option<Seq<char>> {
    match e.location {
        Some(l) => if l.len() == 0 {
            None
        } else {
            Some(l)
        },
        None => None,
    }
}

/// The entries of `es` that are grouped under key `k`, in input order.
pub open spec fn group_content(es: Seq<EntryV>, k: Seq<char>) -> Seq<EntryV> {
    es.filter(|e: EntryV| entry_key(e) == Some(k))
}

/// Whether category tag `t` admits a holiday into the message.
pub open spec fn allowed_type(t: Seq<char>) -> bool {
    t == "Public"@ || t == "Optional"@
}

/// Whether a holiday record applies to the requested date `d`: its date
/// matches exactly and at least one of its category tags is allowed.
pub open spec fn holiday_applies(h: HolidayV, d: Seq<char>) -> bool {
    h.date == d && exists|i: int| 0 <= i < h.types.len() && allowed_type(#[trigger] h.types[i])
}

} // verus!
