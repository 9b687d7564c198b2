//! Which cores the benchmark runs on.

use vstd::prelude::*;

verus! {

/// All cores, or without simultaneous multithreading the first `physical` of them.
pub open spec fn selection(all: Seq<usize>, physical: usize, smt: bool) -> Seq<usize> {
    if smt || all.len() <= physical {
        all
    } else {
        all.take(physical as int)
    }
}

/// Each number is larger than those before it.
pub open spec fn ascending(numbers: Seq<usize>) -> bool {
    forall|i: int, j: int| 0 <= i < j < numbers.len() ==> numbers[i] < numbers[j]
}

/// `core_affinity::get_core_ids`: the numbers of the cores that this thread may run on, if
/// the system tells, from the smallest to the largest. Whether it tells, and which they
/// are, rests with the system and is not said.
#[verifier::external_body]
fn core_ids() -> (found: Option<Vec<usize>>)
    ensures
        found matches Some(all) ==> ascending(all@),
{
    core_affinity::get_core_ids().map(|ids| ids.into_iter().map(|core| core.id).collect())
}

/// `num_cpus::get_physical`: the number of physical cores, which is at least one.
#[verifier::external_body]
fn physical_cores() -> (count: usize)
    ensures
        count >= 1,
{
    num_cpus::get_physical()
}

/// `found` is what `core_ids` may answer.
pub closed spec fn cores_told(found: Option<Vec<usize>>) -> bool {
    call_ensures(core_ids, (), found)
}

/// `count` is what `physical_cores` may answer.
pub closed spec fn physical_told(count: usize) -> bool {
    call_ensures(physical_cores, (), count)
}

/// `cores` is the selection of what the system told of its cores, or nothing if it told
/// nothing.
pub open spec fn selected(
    cores: Option<Vec<usize>>,
    found: Option<Vec<usize>>,
    physical: usize,
    smt: bool,
) -> bool {
    match found {
        Some(all) => cores matches Some(list) && list@ == selection(all@, physical, smt),
        None => cores is None,
    }
}

/// Keeps all cores, or without simultaneous multithreading the first `physical` of them.
pub fn select_cores(all: Vec<usize>, physical: usize, smt: bool) -> (cores: Vec<usize>)
    ensures
        cores@ == selection(all@, physical, smt),
{
    let mut cores: Vec<usize> = all;
    if !smt {
        cores.truncate(physical);
    }
    cores
}

/// The cores to run on, given what the system told of its cores: a selection of them, or
/// nothing if it told nothing.
pub fn cores_from_answer(found: Option<Vec<usize>>, physical: usize, smt: bool) -> (cores: Option<
    Vec<usize>,
>)
    ensures
        selected(cores, found, physical, smt),
{
    match found {
        Some(all) => Some(select_cores(all, physical, smt)),
        None => None,
    }
}

/// The cores to run on: the selection of those that the system tells of. How many cores
/// are physical is asked only without simultaneous multithreading.
pub fn get_cores(smt: bool) -> (cores: Option<Vec<usize>>)
    ensures
        exists|found: Option<Vec<usize>>, physical: usize|
            {
                &&& cores_told(found)
                &&& smt || physical >= 1 && physical_told(physical)
                &&& #[trigger] selected(cores, found, physical, smt)
            },
        cores matches Some(list) ==> ascending(list@),
{
    let found: Option<Vec<usize>> = core_ids();
    assert(cores_told(found));
    let physical: usize = if smt {
        usize::MAX
    } else {
        physical_cores()
    };
    let ghost told = found;
    let cores: Option<Vec<usize>> = cores_from_answer(found, physical, smt);
    assert(selected(cores, told, physical, smt));
    cores
}

/// With multithreading all cores are kept. Without it those are kept that come before as
/// many others as there are physical cores.
pub proof fn lemma_selection_exactly(all: Seq<usize>, physical: usize, smt: bool, index: int)
    requires
        0 <= index < all.len(),
    ensures
        smt ==> selection(all, physical, smt) == all,
        !smt ==> (index < selection(all, physical, smt).len() <==> index < physical),
        index < selection(all, physical, smt).len() ==> selection(all, physical, smt)[index]
            == all[index],
        selection(all, physical, smt).len() <= all.len(),
{
}

/// What comes of an answer of the system: no list if there was none, all of it with
/// multithreading, and without it no more than as many as there are physical cores.
pub proof fn lemma_selected_exactly(
    cores: Option<Vec<usize>>,
    found: Option<Vec<usize>>,
    physical: usize,
    smt: bool,
)
    requires
        selected(cores, found, physical, smt),
    ensures
        cores is Some <==> found is Some,
        cores matches Some(list) ==> found matches Some(all) && {
            &&& smt ==> list@ == all@
            &&& !smt ==> list@.len() == if all@.len() < physical {
                all@.len()
            } else {
                physical as nat
            }
            &&& list@ == all@.take(list@.len() as int)
        },
{
    if let (Some(list), Some(all)) = (cores, found) {
        assert(list@ =~= all@.take(list@.len() as int));
    }
}

/// Leaving multithreading out never adds a core or changes their order, and leaves no
/// more cores than there are physical ones.
pub proof fn lemma_selection_is_prefix(all: Seq<usize>, physical: usize)
    ensures
        selection(all, physical, false).is_prefix_of(selection(all, physical, true)),
        selection(all, physical, false).len() <= physical,
        selection(all, physical, false).len() == physical || selection(all, physical, false)
            == all,
{
}

} // verus!
