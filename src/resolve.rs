//! Mapping `name = literal` pairs onto a fixed, ordered list of recognized
//! argument names.
use vstd::prelude::*;

use crate::annotation::{Lit, NameValue};
use crate::error::DeriveError;

verus! {

/// The views of the recognized names.
pub open spec fn names_of(search_for: Seq<&str>) -> Seq<Seq<char>> {
    Seq::new(search_for.len(), |k: int| search_for[k]@)
}

/// The first position of `n` among `names`, or -1 when it is not there.
pub open spec fn position_of(names: Seq<Seq<char>>, n: Seq<char>) -> int
    decreases names.len(),
{
    if names.len() == 0 {
        -1
    } else {
        let p = position_of(names.drop_last(), n);
        if p >= 0 {
            p
        } else if names.last() == n {
            names.len() - 1
        } else {
            -1
        }
    }
}

/// One empty slot per recognized name.
pub open spec fn empty_slots(count: nat) -> Seq<Option<Lit>> {
    Seq::new(count, |k: int| None::<Lit>)
}

/// The slots after placing each pair, in order, at the position of its name;
/// an unknown name or a second value for a slot is the error.
pub open spec fn fill_slots(pairs: Seq<NameValue>, names: Seq<Seq<char>>) -> Result<
    Seq<Option<Lit>>,
    DeriveError,
>
    decreases pairs.len(),
{
    if pairs.len() == 0 {
        Ok(empty_slots(names.len()))
    } else {
        match fill_slots(pairs.drop_last(), names) {
            Err(e) => Err(e),
            Ok(slots) => {
                let nv = pairs.last();
                let k = position_of(names, nv.name@);
                if k < 0 {
                    Err(DeriveError::UnrecognizedArgumentName(nv.name))
                } else if slots[k] is Some {
                    Err(DeriveError::DuplicateArgument(nv.name))
                } else {
                    Ok(slots.update(k, Some(nv.lit)))
                }
            },
        }
    }
}

/// The resolved arguments: too many pairs fail before any name is looked at.
pub open spec fn resolve_arguments(pairs: Seq<NameValue>, names: Seq<Seq<char>>) -> Result<
    Seq<Option<Lit>>,
    DeriveError,
> {
    if pairs.len() > names.len() {
        Err(DeriveError::TooManyArguments { supplied: pairs.len() as usize, recognized: names.len() as usize })
    } else {
        fill_slots(pairs, names)
    }
}

/// Whether no name occurs twice.
pub open spec fn distinct_names(names: Seq<Seq<char>>) -> bool {
    forall|i: int, j: int| 0 <= i < j < names.len() ==> names[i] != names[j]
}

/// Whether some pair is named `n`.
pub open spec fn given(pairs: Seq<NameValue>, n: Seq<char>) -> bool {
    exists|j: int| 0 <= j < pairs.len() && (#[trigger] pairs[j]).name@ == n
}

proof fn lemma_position(names: Seq<Seq<char>>, n: Seq<char>)
    ensures
        position_of(names, n) >= 0 ==> 0 <= position_of(names, n) < names.len() && names[position_of(
            names,
            n,
        )] == n,
        position_of(names, n) < 0 ==> position_of(names, n) == -1,
    decreases names.len(),
{
    if names.len() > 0 {
        lemma_position(names.drop_last(), n);
    }
}

/// Once arguments resolve over distinct names, a slot holds a value exactly
/// when a pair of that name was given, and then the value of such a pair.
pub proof fn lemma_slot_given(pairs: Seq<NameValue>, names: Seq<Seq<char>>, k: int)
    requires
        fill_slots(pairs, names) is Ok,
        distinct_names(names),
        0 <= k < names.len(),
    ensures
        fill_slots(pairs, names)->Ok_0.len() == names.len(),
        (fill_slots(pairs, names)->Ok_0[k] is Some) == given(pairs, names[k]),
        fill_slots(pairs, names)->Ok_0[k] is Some ==> exists|j: int|
            0 <= j < pairs.len() && (#[trigger] pairs[j]).name@ == names[k]
                && fill_slots(pairs, names)->Ok_0[k] == Some(pairs[j].lit),
    decreases pairs.len(),
{
    if pairs.len() > 0 {
        let prefix = pairs.drop_last();
        let nv = pairs.last();
        lemma_slot_given(prefix, names, k);
        lemma_position(names, nv.name@);
        let p = position_of(names, nv.name@);
        let slots = fill_slots(pairs, names)->Ok_0;
        assert(p >= 0);
        if p == k {
            assert(pairs[pairs.len() - 1] == nv);
        } else {
            assert(names[p] != names[k]);
            if given(pairs, names[k]) {
                let j = choose|j: int| 0 <= j < pairs.len() && (#[trigger] pairs[j]).name@ == names[k];
                assert(j < pairs.len() - 1);
                assert(prefix[j] == pairs[j]);
            }
            if given(prefix, names[k]) {
                let j = choose|j: int| 0 <= j < prefix.len() && (#[trigger] prefix[j]).name@ == names[k];
                assert(prefix[j] == pairs[j]);
            }
            if slots[k] is Some {
                let j = choose|j: int|
                    0 <= j < prefix.len() && (#[trigger] prefix[j]).name@ == names[k]
                        && fill_slots(prefix, names)->Ok_0[k] == Some(prefix[j].lit);
                assert(prefix[j] == pairs[j]);
            }
        }
    }
}

/// More pairs than recognized names fail whatever the names are.
pub proof fn lemma_too_many_arguments(pairs: Seq<NameValue>, names: Seq<Seq<char>>)
    requires
        pairs.len() > names.len(),
    ensures
        resolve_arguments(pairs, names) == Err::<Seq<Option<Lit>>, DeriveError>(
            DeriveError::TooManyArguments { supplied: pairs.len() as usize, recognized: names.len() as usize },
        ),
{
}

proof fn lemma_position_found(names: Seq<Seq<char>>, n: Seq<char>, k: int)
    requires
        0 <= k < names.len(),
        names[k] == n,
        forall|j: int| 0 <= j < k ==> names[j] != n,
    ensures
        position_of(names, n) == k,
    decreases names.len(),
{
    if k < names.len() - 1 {
        lemma_position_found(names.drop_last(), n, k);
    } else {
        lemma_position_absent(names.drop_last(), n);
    }
}

proof fn lemma_position_absent(names: Seq<Seq<char>>, n: Seq<char>)
    requires
        forall|j: int| 0 <= j < names.len() ==> names[j] != n,
    ensures
        position_of(names, n) == -1,
    decreases names.len(),
{
    if names.len() > 0 {
        lemma_position_absent(names.drop_last(), n);
    }
}

proof fn lemma_fill_error_stays(pairs: Seq<NameValue>, names: Seq<Seq<char>>, n: int)
    requires
        0 <= n <= pairs.len(),
        fill_slots(pairs.subrange(0, n), names) is Err,
    ensures
        fill_slots(pairs, names) == fill_slots(pairs.subrange(0, n), names),
    decreases pairs.len(),
{
    if n == pairs.len() {
        assert(pairs.subrange(0, n) =~= pairs);
    } else {
        assert(pairs.drop_last().subrange(0, n) =~= pairs.subrange(0, n));
        lemma_fill_error_stays(pairs.drop_last(), names, n);
    }
}

/// The same-length list of optional values, one per name of `search_for`.
pub fn parse_meta_to_lit(name_values: Vec<NameValue>, search_for: Vec<&str>) -> (r: Result<
    Vec<Option<Lit>>,
    DeriveError,
>)
    ensures
        match resolve_arguments(name_values@, names_of(search_for@)) {
            Ok(slots) => r is Ok && r->Ok_0@ == slots,
            Err(e) => r == Err::<Vec<Option<Lit>>, DeriveError>(e),
        },
        r is Ok ==> r->Ok_0@.len() == search_for@.len(),
        name_values@.len() > search_for@.len() ==> r == Err::<Vec<Option<Lit>>, DeriveError>(
            DeriveError::TooManyArguments {
                supplied: name_values@.len() as usize,
                recognized: search_for@.len() as usize,
            },
        ),
{
    if name_values.len() > search_for.len() {
        return Err(
            DeriveError::TooManyArguments {
                supplied: name_values.len(),
                recognized: search_for.len(),
            },
        );
    }
    let ghost names = names_of(search_for@);
    let mut owned: Vec<String> = Vec::new();
    let mut lit_options: Vec<Option<Lit>> = Vec::new();
    let mut k: usize = 0;
    while k < search_for.len()
        invariant
            0 <= k <= search_for@.len(),
            names == names_of(search_for@),
            owned@.len() == k,
            forall|j: int| 0 <= j < k ==> #[trigger] owned@[j]@ == names[j],
            lit_options@ == empty_slots(k as nat),
        decreases search_for@.len() - k,
    {
        owned.push(search_for[k].to_owned());
        lit_options.push(None);
        assert(lit_options@ =~= empty_slots((k + 1) as nat));
        k = k + 1;
    }
    let mut i: usize = 0;
    while i < name_values.len()
        invariant
            0 <= i <= name_values@.len(),
            names == names_of(search_for@),
            owned@.len() == names.len(),
            forall|j: int| 0 <= j < names.len() ==> #[trigger] owned@[j]@ == names[j],
            lit_options@.len() == names.len(),
            name_values@.len() <= search_for@.len(),
            fill_slots(name_values@.subrange(0, i as int), names) == Ok::<
                Seq<Option<Lit>>,
                DeriveError,
            >(lit_options@),
        decreases name_values@.len() - i,
    {
        let nv = &name_values[i];
        let ghost upto = name_values@.subrange(0, i + 1);
        assert(upto.drop_last() =~= name_values@.subrange(0, i as int));
        assert(upto.last() == *nv);
        let mut position: usize = 0;
        while position < owned.len() && !(owned[position] == nv.name)
            invariant
                0 <= position <= owned@.len(),
                owned@.len() == names.len(),
                forall|j: int| 0 <= j < names.len() ==> #[trigger] owned@[j]@ == names[j],
                forall|j: int| 0 <= j < position ==> #[trigger] owned@[j]@ != nv.name@,
            decreases owned@.len() - position,
        {
            position = position + 1;
        }
        if position == owned.len() {
            proof {
                assert forall|j: int| 0 <= j < names.len() implies names[j] != nv.name@ by {
                    assert(owned@[j]@ == names[j]);
                }
                lemma_position_absent(names, nv.name@);
                assert(fill_slots(upto, names) == Err::<Seq<Option<Lit>>, DeriveError>(
                    DeriveError::UnrecognizedArgumentName(nv.name),
                ));
                lemma_fill_error_stays(name_values@, names, i + 1);
            }
            return Err(DeriveError::UnrecognizedArgumentName(nv.name.clone()));
        }
        proof {
            assert forall|j: int| 0 <= j < position implies names[j] != nv.name@ by {
                assert(owned@[j]@ == names[j]);
            }
            assert(owned@[position as int]@ == names[position as int]);
            lemma_position_found(names, nv.name@, position as int);
        }
        if lit_options[position].is_some() {
            proof {
                assert(fill_slots(upto, names) == Err::<Seq<Option<Lit>>, DeriveError>(
                    DeriveError::DuplicateArgument(nv.name),
                ));
                lemma_fill_error_stays(name_values@, names, i + 1);
            }
            return Err(DeriveError::DuplicateArgument(nv.name.clone()));
        }
        lit_options[position] = Some(nv.lit.duplicate());
        i = i + 1;
    }
    assert(name_values@.subrange(0, name_values@.len() as int) =~= name_values@);
    Ok(lit_options)
}

} // verus!
