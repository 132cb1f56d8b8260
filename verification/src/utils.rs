//! Lookup in a list of environment variables handed in by the caller.

use vstd::prelude::*;

verus! {

/// The value bound to `key` by the first pair of `vars` that carries it.
pub open spec fn env_lookup(vars: Seq<(String, String)>, key: Seq<char>) -> Option<Seq<char>>
    decreases vars.len(),
{
    if vars.len() == 0 {
        None
    } else if vars[0].0@ == key {
        Some(vars[0].1@)
    } else {
        env_lookup(vars.drop_first(), key)
    }
}

/// Searching from position `from` on gives the same answer as searching the
/// whole list, once no earlier pair carries the key.
proof fn lemma_lookup_skip(vars: Seq<(String, String)>, key: Seq<char>, from: int)
    requires
        0 <= from <= vars.len(),
        forall|j: int| 0 <= j < from ==> vars[j].0@ != key,
    ensures
        env_lookup(vars, key) == env_lookup(vars.subrange(from, vars.len() as int), key),
    decreases from,
{
    if from == 0 {
        assert(vars.subrange(0, vars.len() as int) =~= vars);
    } else {
        lemma_lookup_skip(vars, key, from - 1);
        let tail = vars.subrange(from - 1, vars.len() as int);
        assert(tail[0] == vars[from - 1]);
        assert(tail.drop_first() =~= vars.subrange(from, vars.len() as int));
    }
}

/// The value of the first variable named `key_search`, if there is one.
pub fn env_find(iteration: &[(String, String)], key_search: &str) -> (found: Option<String>)
    ensures
        match env_lookup(iteration@, key_search@) {
            Some(value) => found is Some && found->0@ == value,
            None => found is None,
        },
{
    let wanted = key_search.to_owned();
    let mut i: usize = 0;
    while i < iteration.len()
        invariant
            i <= iteration.len(),
            wanted@ == key_search@,
            forall|j: int| 0 <= j < i ==> iteration@[j].0@ != key_search@,
        decreases iteration.len() - i,
    {
        if iteration[i].0 == wanted {
            proof {
                lemma_lookup_skip(iteration@, key_search@, i as int);
            }
            return Some(iteration[i].1.clone());
        }
        i += 1;
    }
    proof {
        lemma_lookup_skip(iteration@, key_search@, i as int);
    }
    None
}

/// The value of the variable named `key_search`, which must be present.
pub fn env_get(iteration: &[(String, String)], key_search: &'static str) -> (value: String)
    requires
        env_lookup(iteration@, key_search@) is Some,
    ensures
        Some(value@) == env_lookup(iteration@, key_search@),
{
    match env_find(iteration, key_search) {
        Some(value) => value,
        None => vstd::pervasive::unreached(),
    }
}

} // verus!
