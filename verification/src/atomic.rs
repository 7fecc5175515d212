//! Replacing a file in one step.

use vstd::prelude::*;

verus! {

/// The name of the file that is written first, beside the one it replaces.
pub open spec fn temporary(file_name: Option<Seq<char>>) -> Seq<char> {
    "."@ + match file_name {
        Some(n) => n,
        None => "state"@,
    } + ".tmp"@
}

/// The name of the file that is written first and then renamed; it stands in
/// the same directory, since a rename works within one file system.
pub fn temporary_name(file_name: Option<&str>) -> (name: String)
    ensures
        name@ == temporary(
            match file_name {
                Some(n) => Some(n@),
                None => None,
            },
        ),
{
    let mut name = ".".to_owned();
    match file_name {
        Some(n) => {
            name.append(n);
        },
        None => {
            name.append("state");
        },
    }
    name.append(".tmp");
    name
}

/// Two files of one directory are written by way of different files.
pub proof fn law_temporary_names_differ(a: Seq<char>, b: Seq<char>)
    requires
        a != b,
    ensures
        temporary(Some(a)) != temporary(Some(b)),
{
    reveal_strlit(".");
    reveal_strlit(".tmp");
    let x = temporary(Some(a));
    let y = temporary(Some(b));
    if x == y {
        assert(x.len() == a.len() + 5);
        assert(y.len() == b.len() + 5);
        assert forall|i: int| 0 <= i < a.len() implies a[i] == b[i] by {
            assert(x[i + 1] == a[i]);
            assert(y[i + 1] == b[i]);
        }
        assert(a =~= b);
    }
}

} // verus!
