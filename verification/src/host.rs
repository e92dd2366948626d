//! Host names: which name a request addresses, and the parent of a name.

use vstd::prelude::*;

verus! {

/// What follows the first `.` of `s`, if `s` has one.
pub open spec fn after_first_dot(s: Seq<char>) -> Option<Seq<char>>
    decreases s.len(),
{
    if s.len() == 0 {
        None
    } else if s[0] == '.' {
        Some(s.subrange(1, s.len() as int))
    } else {
        after_first_dot(s.subrange(1, s.len() as int))
    }
}

/// The parent of a host name: the name without its leftmost label, provided
/// that what is left still has a `.` in it.
pub open spec fn parent_host(s: Seq<char>) -> Option<Seq<char>> {
    match after_first_dot(s) {
        Some(rest) => if rest.contains('.') {
            Some(rest)
        } else {
            None
        },
        None => None,
    }
}

/// Whether `name` is one of `names`.
pub open spec fn listed(names: Seq<String>, name: Seq<char>) -> bool {
    exists|k: int| 0 <= k < names.len() && (#[trigger] names[k])@ == name
}

/// The view of an optional string.
pub open spec fn opt_view(s: Option<String>) -> Option<Seq<char>> {
    match s {
        Some(t) => Some(t@),
        None => None,
    }
}

/// `sub_host::sub_host`. It looks for the first `.`, takes what follows it,
/// and returns that if it is not empty and holds another `.`; otherwise it
/// returns `None`. The contract says exactly this.
#[verifier::external_body]
pub(crate) fn sub_host(host: &str) -> (parent: Option<String>)
    ensures
        opt_view(parent) == parent_host(host@),
{
    sub_host::sub_host(host)
}

/// The `Host` header of a request, as far as the proxy reads it.
pub enum HostHeader {
    /// The request has no `Host` header.
    Absent,
    /// The header is there, but its value is not visible ASCII.
    Unreadable,
    /// The header's value.
    Text(String),
}

/// The host that a request addresses: the `Host` header where the request has
/// one (the empty name where its value cannot be read), the host of the URI
/// otherwise, and the empty name where there is neither.
pub open spec fn spec_req_host(header: HostHeader, uri_host: Option<Seq<char>>) -> Seq<char> {
    match header {
        HostHeader::Text(h) => h@,
        HostHeader::Unreadable => Seq::empty(),
        HostHeader::Absent => match uri_host {
            Some(h) => h,
            None => Seq::empty(),
        },
    }
}

/// The view of an optional string slice.
pub open spec fn opt_str_view(s: Option<&str>) -> Option<Seq<char>> {
    match s {
        Some(t) => Some(t@),
        None => None,
    }
}

/// Computes the host that a request addresses from its `Host` header and the
/// host of its URI.
pub fn req_host<'a>(header: &'a HostHeader, uri_host: Option<&'a str>) -> (host: &'a str)
    ensures
        host@ == spec_req_host(*header, opt_str_view(uri_host)),
{
    match header {
        HostHeader::Text(h) => h.as_str(),
        HostHeader::Unreadable => {
            proof {
                reveal_strlit("");
            }
            ""
        },
        HostHeader::Absent => match uri_host {
            Some(h) => h,
            None => {
                proof {
                    reveal_strlit("");
                }
                ""
            },
        },
    }
}

/// A copy of a list of names.
pub fn copy_names(names: &Vec<String>) -> (copy: Vec<String>)
    ensures
        copy@.len() == names@.len(),
        forall|k: int| 0 <= k < names@.len() ==> (#[trigger] copy@[k])@ == names@[k]@,
{
    let mut copy: Vec<String> = Vec::new();
    let mut i: usize = 0;
    while i < names.len()
        invariant
            i <= names@.len(),
            copy@.len() == i,
            forall|k: int| 0 <= k < i ==> (#[trigger] copy@[k])@ == names@[k]@,
        decreases names@.len() - i,
    {
        copy.push(names[i].clone());
        i += 1;
    }
    copy
}

} // verus!
