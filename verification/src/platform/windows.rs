//! What can be decided about adapters and `netsh` on Windows.

use super::PlatformError;
use crate::seqs;
use crate::text::{self, joined_text};
use vstd::prelude::*;

verus! {

/// A network adapter, as the host lists it.
#[derive(Debug)]
pub struct Adapter {
    /// The name that is shown to users.
    pub friendly_name: String,
    /// The name that the system uses.
    pub adapter_name: String,
    /// Its IPv6 interface index.
    pub ipv6_if_index: u32,
}

/// Whether an adapter goes by this name.
pub open spec fn is_named(name: Seq<char>) -> spec_fn(Adapter) -> bool {
    |a: Adapter| a.friendly_name@ == name || a.adapter_name@ == name
}

/// The interface index of the first adapter that goes by this name.
pub fn ifindex_by_name(adapters: &[Adapter], name: &str) -> (r: Result<u32, PlatformError>)
    ensures
        ({
            let k = seqs::first_where(adapters@, is_named(name@));
            if k < adapters@.len() {
                r == Ok::<u32, PlatformError>(adapters@[k].ipv6_if_index)
            } else {
                r matches Err(PlatformError::NotFound(n)) && n@ == name@
            }
        }),
{
    let wanted = name.to_owned();
    let mut i: usize = 0;
    while i < adapters.len()
        invariant
            i <= adapters.len(),
            wanted@ == name@,
            forall|j: int| 0 <= j < i ==> !is_named(name@)(#[trigger] adapters@[j]),
        decreases adapters.len() - i,
    {
        if adapters[i].friendly_name == wanted || adapters[i].adapter_name == wanted {
            proof {
                seqs::lemma_first_where_is(adapters@, is_named(name@), i as int);
            }
            return Ok(adapters[i].ipv6_if_index);
        }
        i = i + 1;
    }
    proof {
        seqs::lemma_first_where_is(adapters@, is_named(name@), i as int);
    }
    Err(PlatformError::NotFound(wanted))
}

/// The name of an interface as `netsh` takes it.
pub fn quoted(name: &str) -> (s: String)
    ensures
        s@ == "\""@ + name@ + "\""@,
{
    let mut s = "\"".to_owned();
    s.append(name);
    s.append("\"");
    s
}

/// What it means that `netsh` failed on these arguments and complained.
pub fn netsh_failed(args: &[&str], complaint: &str) -> (e: PlatformError)
    ensures
        e matches PlatformError::Os(why) && why@ == "netsh "@ + text::joined(text::words(args@))
            + " failed: "@ + complaint@,
{
    let mut why = "netsh ".to_owned();
    why.append(joined_text(args).as_str());
    why.append(" failed: ");
    why.append(complaint);
    PlatformError::Os(why)
}

} // verus!
