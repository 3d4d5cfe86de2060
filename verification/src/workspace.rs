//! Finding the workspace a command works in: the nearest directory, from
//! the starting directory upward, that holds `.tincan/config.toml`.
use vstd::prelude::*;
use crate::text::{chars_of, string_of, push_str, strs};

verus! {

/// Index of the first candidate directory that holds a workspace
/// configuration, or the number of candidates.
pub open spec fn first_configured(has_config: Seq<bool>) -> int
    decreases has_config.len(),
{
    if has_config.len() == 0 {
        0
    } else if has_config[0] {
        0
    } else {
        1 + first_configured(has_config.drop_first())
    }
}

/// The workspace among a directory's ancestors (nearest first): the first
/// one whose `.tincan/config.toml` is a file (`has_config`, in the same
/// order).
pub fn find_from(ancestors: &Vec<String>, has_config: &Vec<bool>) -> (r: Option<String>)
    requires
        has_config.len() == ancestors.len(),
    ensures
        first_configured(has_config@) < ancestors.len() ==> r is Some && r->0@
            == ancestors@[first_configured(has_config@)]@,
        first_configured(has_config@) >= ancestors.len() ==> r is None,
        match found_among(strs(ancestors@), has_config@) {
            Some(w) => r is Some && r->0@ == w,
            None => r is None,
        },
{
    let mut i: usize = 0;
    assert(has_config@.skip(0) =~= has_config@);
    while i < ancestors.len()
        invariant
            i <= ancestors.len(),
            has_config.len() == ancestors.len(),
            first_configured(has_config@) == i + first_configured(has_config@.skip(i as int)),
        decreases ancestors.len() - i,
    {
        if has_config[i] {
            assert(strs(ancestors@)[i as int] == ancestors@[i as int]@);
            return Some(ancestors[i].clone());
        }
        assert(has_config@.skip(i as int).drop_first() =~= has_config@.skip(i + 1));
        i = i + 1;
    }
    assert(has_config@.skip(i as int) =~= Seq::<bool>::empty());
    assert(strs(ancestors@).len() == ancestors.len());
    None
}

/// The message for a directory outside every workspace.
pub open spec fn no_workspace_message(start: Seq<char>) -> Seq<char> {
    start + " is not inside a Tincan workspace; run `tincan init "@ + start + "`"@
}

/// The workspace found from `start`, or the message that there is none.
pub fn find(start: &str, found: Option<String>) -> (r: Result<String, String>)
    ensures
        match found {
            Some(w) => r is Ok && r->Ok_0@ == w@,
            None => r is Err && r->Err_0@ == no_workspace_message(start@),
        },
{
    match found {
        Some(w) => Ok(w),
        None => {
            let mut e = chars_of(start);
            push_str(&mut e, " is not inside a Tincan workspace; run `tincan init ");
            push_str(&mut e, start);
            push_str(&mut e, "`");
            Err(string_of(e.as_slice()))
        },
    }
}

/// The workspace among a directory's ancestors, if any: what `find_from`
/// gives, as a value.
pub open spec fn found_among(ancestors: Seq<Seq<char>>, has_config: Seq<bool>) -> Option<Seq<char>> {
    if first_configured(has_config) < ancestors.len() {
        Some(ancestors[first_configured(has_config)])
    } else {
        None
    }
}

/// The lookup finds no workspace exactly when no ancestor holds a
/// configuration, and otherwise finds the nearest ancestor that holds one;
/// the optional lookup (`find_from` alone) and the required one (`find` of
/// its result) then agree: `find` refuses exactly where the other finds none.
pub proof fn lemma_optional_lookup(ancestors: Seq<Seq<char>>, has_config: Seq<bool>)
    requires
        has_config.len() == ancestors.len(),
    ensures
        found_among(ancestors, has_config) is None <==> (forall|i: int|
            0 <= i < has_config.len() ==> !#[trigger] has_config[i]),
        found_among(ancestors, has_config) matches Some(w) ==> ({
            let k = first_configured(has_config);
            &&& w == ancestors[k]
            &&& has_config[k]
            &&& forall|i: int| 0 <= i < k ==> !#[trigger] has_config[i]
        }),
{
    lemma_first_configured(has_config);
}

proof fn lemma_first_configured(has_config: Seq<bool>)
    ensures
        0 <= first_configured(has_config) <= has_config.len(),
        first_configured(has_config) < has_config.len() ==> has_config[first_configured(has_config)],
        forall|i: int| 0 <= i < first_configured(has_config) ==> !#[trigger] has_config[i],
    decreases has_config.len(),
{
    if has_config.len() > 0 && !has_config[0] {
        lemma_first_configured(has_config.drop_first());
        assert forall|i: int| 0 <= i < first_configured(has_config) implies !#[trigger] has_config[i] by {
            if i > 0 {
                assert(has_config[i] == has_config.drop_first()[i - 1]);
            }
        }
    }
}

} // verus!
