//! Choosing the entry to boot.

use vstd::prelude::*;

verus! {

/// What to do once the entry to fall back to is known.
#[derive(Debug, Clone, Copy, PartialEq, Eq, Structural)]
pub enum MenuAction {
    /// Boot the entry at this index right away.
    Boot(usize),
    /// Show the menu; the entry at this index is the default.
    ShowMenu(usize),
}

/// The index of the first name in `names` equal to `name`.
pub open spec fn index_of(names: Seq<Seq<char>>, name: Seq<char>) -> Option<int>
    decreases names.len(),
{
    if names.len() == 0 {
        None
    } else if names.last() == name {
        match index_of(names.drop_last(), name) {
            Some(i) => Some(i),
            None => Some(names.len() - 1),
        }
    } else {
        index_of(names.drop_last(), name)
    }
}

/// The default entry: the one named `default`, or the first one where there
/// is none of that name.
pub open spec fn default_index(names: Seq<Seq<char>>, default: Seq<char>) -> int {
    match index_of(names, default) {
        Some(i) => i,
        None => 0,
    }
}

/// Choose an entry to boot from the entries' names, in their order.
///
/// A timeout of zero boots the default entry at once; otherwise the menu is
/// shown with that entry as its default.
pub fn choose_entry(names: &Vec<String>, default: &String, timeout: Option<u32>) -> (r: MenuAction)
    requires
        names.len() > 0,
    ensures
        ({
            let d = default_index(names@.map_values(|n: String| n@), default@);
            r == if timeout == Some(0u32) {
                MenuAction::Boot(d as usize)
            } else {
                MenuAction::ShowMenu(d as usize)
            }
        }),
        0 <= default_index(names@.map_values(|n: String| n@), default@) < names.len(),
{
    let ghost all = names@.map_values(|n: String| n@);
    let mut found: Option<usize> = None;
    let mut i: usize = 0;
    while i < names.len()
        invariant
            all == names@.map_values(|n: String| n@),
            i <= names.len(),
            match found {
                None => index_of(all.subrange(0, i as int), default@) is None,
                Some(f) => index_of(all.subrange(0, i as int), default@) == Some(f as int) && f < i,
            },
        decreases names.len() - i,
    {
        proof {
            assert(all.subrange(0, i + 1).drop_last() =~= all.subrange(0, i as int));
            assert(all.subrange(0, i + 1).last() == names@[i as int]@);
        }
        if found.is_none() && names[i] == *default {
            found = Some(i);
        }
        i = i + 1;
    }
    assert(all.subrange(0, names.len() as int) =~= all);
    let d: usize = match found {
        Some(f) => f,
        None => 0,
    };
    if timeout == Some(0u32) {
        MenuAction::Boot(d)
    } else {
        MenuAction::ShowMenu(d)
    }
}

} // verus!
