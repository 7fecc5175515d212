//! The project's own tasks.

use crate::text::{self, joined_text};
use vstd::prelude::*;

verus! {

/// A scenario of the end-to-end tests.
pub open spec fn scripts(which: Seq<char>) -> Option<Seq<Seq<char>>> {
    if which == ""@ || which == "all"@ {
        Some(
            seq![
                "scripts/netns-e2e.sh"@,
                "scripts/netns-e2e-dynamic.sh"@,
                "scripts/netns-e2e-doctor.sh"@,
                "scripts/netns-e2e-lan.sh"@,
                "scripts/netns-e2e-relay.sh"@,
            ],
        )
    } else if which == "static"@ {
        Some(seq!["scripts/netns-e2e.sh"@])
    } else if which == "dynamic"@ {
        Some(seq!["scripts/netns-e2e-dynamic.sh"@])
    } else if which == "doctor"@ {
        Some(seq!["scripts/netns-e2e-doctor.sh"@])
    } else if which == "lan"@ {
        Some(seq!["scripts/netns-e2e-lan.sh"@])
    } else if which == "relay"@ {
        Some(seq!["scripts/netns-e2e-relay.sh"@])
    } else {
        None
    }
}

fn equals(a: &str, b: &str) -> (same: bool)
    ensures
        same == (a@ == b@),
{
    a.to_owned() == b.to_owned()
}

/// The scripts that a scenario runs, in order. A scenario that there is not is
/// refused.
pub fn e2e_scripts(which: &str) -> (r: Result<Vec<&'static str>, String>)
    ensures
        r is Ok <==> scripts(which@) is Some,
        r matches Ok(list) ==> scripts(which@) == Some(list@.map_values(|s: &'static str| s@)),
        r matches Err(why) ==> why@ == "unknown e2e scenario "@ + which@
            + "; use static|dynamic|doctor|lan|relay|all"@,
{
    let mut list: Vec<&'static str> = Vec::new();
    let all = equals(which, "") || equals(which, "all");
    if all || equals(which, "static") {
        list.push("scripts/netns-e2e.sh");
    }
    if all || equals(which, "dynamic") {
        list.push("scripts/netns-e2e-dynamic.sh");
    }
    if all || equals(which, "doctor") {
        list.push("scripts/netns-e2e-doctor.sh");
    }
    if all || equals(which, "lan") {
        list.push("scripts/netns-e2e-lan.sh");
    }
    if all || equals(which, "relay") {
        list.push("scripts/netns-e2e-relay.sh");
    }
    proof {
        reveal_strlit("static");
        reveal_strlit("dynamic");
        reveal_strlit("doctor");
        reveal_strlit("lan");
        reveal_strlit("relay");
        assert("static"@[0] == 's' && "doctor"@[0] == 'd' && "dynamic"@.len() == 7);
        assert("doctor"@.len() == 6 && "lan"@.len() == 3 && "relay"@.len() == 5);
    }
    if list.len() == 0 {
        let mut why = "unknown e2e scenario ".to_owned();
        why.append(which);
        why.append("; use static|dynamic|doctor|lan|relay|all");
        Err(why)
    } else {
        proof {
            assert(list@.map_values(|s: &'static str| s@) =~= scripts(which@)->Some_0);
        }
        Ok(list)
    }
}

/// A command as it is shown: the program, a space, and its arguments with a
/// space between each two.
pub fn command_line(program: &str, args: &[&str]) -> (line: String)
    ensures
        line@ == program@ + " "@ + text::joined(text::words(args@)),
{
    let mut line = program.to_owned();
    line.append(" ");
    line.append(joined_text(args).as_str());
    line
}

/// Running everything runs the script of each scenario.
pub proof fn law_all_runs_each(which: Seq<char>, i: int)
    requires
        scripts(which) is Some,
        0 <= i < scripts(which)->Some_0.len(),
    ensures
        scripts("all"@) is Some,
        scripts("all"@)->Some_0.len() == 5,
        scripts("all"@)->Some_0.contains(scripts(which)->Some_0[i]),
{
    let all = scripts("all"@)->Some_0;
    assert(all[0] == "scripts/netns-e2e.sh"@);
    assert(all[1] == "scripts/netns-e2e-dynamic.sh"@);
    assert(all[2] == "scripts/netns-e2e-doctor.sh"@);
    assert(all[3] == "scripts/netns-e2e-lan.sh"@);
    assert(all[4] == "scripts/netns-e2e-relay.sh"@);
    if which == ""@ || which == "all"@ {
        assert(scripts(which)->Some_0[i] == all[i]);
    }
}

} // verus!
