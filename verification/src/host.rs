//! The machine's host name, as the operating system reports it.
use vstd::prelude::*;

verus! {

/// What a lookup of the machine's host name gave: the name, or nothing
/// where the lookup failed. Only `system_host_name` makes a value of this
/// type, so every one holds what a real lookup returned.
pub struct HostName {
    found: Option<String>,
}

/// The host name that an alert shows: the one found, or `unknown` where
/// the lookup failed.
pub open spec fn shown_host(found: Option<Seq<char>>) -> Seq<char> {
    match found {
        Some(h) => h,
        None => "unknown"@,
    }
}

impl HostName {
    /// The name the lookup found, as text, or none where it failed.
    pub closed spec fn found(&self) -> Option<Seq<char>> {
        match self.found {
            Some(h) => Some(h@),
            None => None,
        }
    }

    /// The name to show: the one found, or `unknown`.
    pub fn shown(&self) -> (s: String)
        ensures
            s@ == shown_host(self.found()),
    {
        match &self.found {
            Some(h) => h.clone(),
            None => String::from_str("unknown"),
        }
    }
}

/// Looks up the machine's host name with `hostname::get`, converted lossily
/// to text; the lookup's failure becomes no name. The name depends on the
/// machine, so nothing is stated of it.
#[verifier::external_body]
pub(crate) fn system_host_name() -> (r: HostName) {
    let found = match hostname::get() {
        Ok(h) => Some(h.to_string_lossy().to_string()),
        Err(_) => None,
    };
    HostName { found }
}

} // verus!
