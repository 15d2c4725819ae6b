//! Names by which addresses are shown.

use vstd::prelude::*;

verus! {

/// The name listed first for `key` in a list of keys and names.
pub open spec fn name_of(names: Seq<(String, String)>, key: Seq<char>) -> Option<Seq<char>>
    decreases names.len(),
{
    if names.len() == 0 {
        None
    } else if names[0].0@ == key {
        Some(names[0].1@)
    } else {
        name_of(names.drop_first(), key)
    }
}

/// What is shown for an address: its name, or the address itself where it has none.
pub open spec fn shown(names: Seq<(String, String)>, address: Seq<char>) -> Seq<char> {
    match name_of(names, address) {
        Some(name) => name,
        None => address,
    }
}

/// Looks up the name of `key`.
pub fn find_name(names: &Vec<(String, String)>, key: &String) -> (found: Option<String>)
    ensures
        found is Some == name_of(names@, key@) is Some,
        found matches Some(name) ==> name@ == name_of(names@, key@)->0,
{
    let mut i: usize = 0;
    assert(names@.skip(0) =~= names@);
    while i < names.len()
        invariant
            i <= names.len(),
            name_of(names@, key@) == name_of(names@.skip(i as int), key@),
        decreases names.len() - i,
    {
        let entry = &names[i];
        assert(names@.skip(i as int)[0] == *entry);
        if entry.0 == *key {
            return Some(entry.1.clone());
        }
        assert(names@.skip(i as int).drop_first() =~= names@.skip(i + 1));
        i = i + 1;
    }
    None
}

/// What is shown for an address.
pub fn shown_name(names: &Vec<(String, String)>, address: &String) -> (name: String)
    ensures
        name@ == shown(names@, address@),
{
    match find_name(names, address) {
        Some(name) => name,
        None => address.clone(),
    }
}

/// The first entry for an address gives its name, whatever stands around it.
pub proof fn lemma_first_entry_names(names: Seq<(String, String)>, address: Seq<char>, i: int)
    requires
        0 <= i < names.len(),
        names[i].0@ == address,
        forall|j: int| 0 <= j < i ==> (#[trigger] names[j]).0@ != address,
    ensures
        name_of(names, address) == Some(names[i].1@),
        shown(names, address) == names[i].1@,
    decreases names.len(),
{
    if i > 0 {
        assert(names[0].0@ != address);
        let rest = names.drop_first();
        assert(rest[i - 1] == names[i]);
        assert forall|j: int| 0 <= j < i - 1 implies (#[trigger] rest[j]).0@ != address by {
            assert(rest[j] == names[j + 1]);
        }
        lemma_first_entry_names(rest, address, i - 1);
    }
}

/// An address without an entry has no name and is shown itself.
pub proof fn lemma_unlisted_shown_itself(names: Seq<(String, String)>, address: Seq<char>)
    requires
        forall|j: int| 0 <= j < names.len() ==> (#[trigger] names[j]).0@ != address,
    ensures
        name_of(names, address) is None,
        shown(names, address) == address,
    decreases names.len(),
{
    if names.len() > 0 {
        assert(names[0].0@ != address);
        let rest = names.drop_first();
        assert forall|j: int| 0 <= j < rest.len() implies (#[trigger] rest[j]).0@ != address by {
            assert(rest[j] == names[j + 1]);
        }
        lemma_unlisted_shown_itself(rest, address);
    }
}

} // verus!
