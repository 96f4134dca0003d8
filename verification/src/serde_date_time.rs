//! The completion timestamp of a todo: either unset or a rendered
//! local date-time, kept in its serialized `yyyy-mm-ddThh:mm:ss+oo:oo`
//! form. The library only ever sets, clears and stores the stamp; the
//! text itself comes from the clock and is treated as opaque.

use vstd::prelude::*;

verus! {

/// An optional completion timestamp, held in serialized form.
#[derive(Debug, Clone, PartialEq, Eq)]
pub struct SerdeDateTime {
    pub stamp: Option<String>,
}

impl SerdeDateTime {
    /// Whether the timestamp is set.
    pub open spec fn is_set(self) -> bool {
        self.stamp is Some
    }

    /// A set timestamp whose text is non-empty. Such a stamp never
    /// serializes to the empty string, which stands for the unset
    /// timestamp in the persisted form.
    pub open spec fn stamp_nonempty(self) -> bool {
        self.stamp matches Some(s) && s@.len() > 0
    }

    /// The unset timestamp.
    pub fn new_empty() -> (r: Self)
        ensures
            !r.is_set(),
    {
        SerdeDateTime { stamp: None }
    }

    /// A timestamp of the present moment, freshly read from the clock;
    /// its text is never empty, so it never persists as unset.
    pub fn now() -> (r: Self)
        ensures
            r.is_set(),
            r.stamp_nonempty(),
    {
        SerdeDateTime { stamp: Some(now_stamp()) }
    }

    /// The serialized form: the stamp itself, or the empty string when unset.
    pub fn to_serialized(&self) -> (r: String)
        ensures
            self.is_set() ==> r@ == self.stamp->Some_0@,
            !self.is_set() ==> r@ == Seq::<char>::empty(),
    {
        match &self.stamp {
            Some(s) => s.clone(),
            None => String::new(),
        }
    }

    /// The timestamp a serialized form stands for: the empty string is
    /// the unset stamp, any other text is kept verbatim.
    pub fn from_serialized(s: &str) -> (r: Self)
        ensures
            s@.len() == 0 ==> !r.is_set(),
            s@.len() > 0 ==> r.is_set() && r.stamp->Some_0@ == s@,
    {
        if s.unicode_len() == 0 {
            SerdeDateTime { stamp: None }
        } else {
            SerdeDateTime { stamp: Some(s.to_owned()) }
        }
    }
}

/// Relies on chrono's `Local::now` and `DateTime::format`: the present
/// local time rendered as `yyyy-mm-ddThh:mm:ss+oo:oo`; the rendering is
/// never empty.
#[verifier::external_body]
fn now_stamp() -> (r: String)
    ensures
        r@.len() > 0,
{
    chrono::Local::now().format("%Y-%m-%dT%H:%M:%S%:z").to_string()
}

} // verus!
