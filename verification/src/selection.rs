//! Which of a list of archives are kept.

use crate::calendar::{CalendarDate, Ymd};
use crate::naming::{date_in_name, extract_date, fault_in_name, BackupFile, NamingError};
use crate::retention::{keep, should_keep};
use vstd::prelude::*;

verus! {

/// The archives whose names carry a date under `prefix` that is kept as of
/// `now`.
pub open spec fn is_kept(prefix: Seq<char>, now: Ymd) -> spec_fn(BackupFile) -> bool {
    |file: BackupFile|
        {
            &&& fault_in_name(prefix, file.file_name@) is None
            &&& should_keep(date_in_name(prefix, file.file_name@), now)
        }
}

/// Whether the names of all the archives carry a date under `prefix`.
pub open spec fn all_dated(prefix: Seq<char>, files: Seq<BackupFile>) -> bool {
    forall|i: int|
        0 <= i < files.len() ==> fault_in_name(prefix, #[trigger] files[i].file_name@) is None
}

/// Whether the archive at `index` is the first whose name carries no date
/// under `prefix`.
pub open spec fn first_undated(prefix: Seq<char>, files: Seq<BackupFile>, index: int) -> bool {
    &&& 0 <= index < files.len()
    &&& fault_in_name(prefix, files[index].file_name@) is Some
    &&& all_dated(prefix, files.take(index))
}

/// The archives themselves, for a sequence of references to them.
pub open spec fn referents(files: Seq<&BackupFile>) -> Seq<BackupFile> {
    files.map_values(|file: &BackupFile| *file)
}

/// The verdict on one archive as of `now`, or the error in its name.
pub fn keep_file(file_prefix: &String, file: &BackupFile, now: &CalendarDate) -> (verdict: Result<
    bool,
    NamingError,
>)
    ensures
        match verdict {
            Ok(kept) => {
                &&& fault_in_name(file_prefix@, file.file_name@) is None
                &&& kept == is_kept(file_prefix@, now@)(*file)
            },
            Err(error) => {
                &&& fault_in_name(file_prefix@, file.file_name@) == Some(error.kind)
                &&& error.file_name@ == file.file_name@
            },
        },
{
    match extract_date(file_prefix, file) {
        Ok(date) => Ok(keep(&date, now)),
        Err(error) => Err(error),
    }
}

/// The archives that are kept as of `now`, in the order in which they were
/// given. Where a name carries no date, nothing is kept or dropped: the
/// error of the first such name comes back.
pub fn filter<'a>(file_prefix: &String, files: &'a Vec<BackupFile>, now: &CalendarDate) -> (kept:
    Result<Vec<&'a BackupFile>, NamingError>)
    ensures
        kept is Ok <==> all_dated(file_prefix@, files@),
        kept matches Ok(chosen) ==> referents(chosen@) == files@.filter(
            is_kept(file_prefix@, now@),
        ),
        kept matches Err(error) ==> exists|index: int|
            {
                &&& #[trigger] first_undated(file_prefix@, files@, index)
                &&& fault_in_name(file_prefix@, files[index].file_name@) == Some(error.kind)
                &&& error.file_name@ == files[index].file_name@
            },
{
    let mut ret: Vec<&BackupFile> = Vec::with_capacity(files.len());
    let mut i: usize = 0;
    proof {
        reveal(Seq::filter);
        assert(files@.take(0) =~= Seq::<BackupFile>::empty());
        assert(referents(ret@) =~= Seq::<BackupFile>::empty());
    }
    while i < files.len()
        invariant
            i <= files.len(),
            all_dated(file_prefix@, files@.take(i as int)),
            referents(ret@) == files@.take(i as int).filter(is_kept(file_prefix@, now@)),
        decreases files.len() - i,
    {
        let file = &files[i];
        let ghost seen = files@.take(i as int);
        let ghost next = files@.take(i + 1);
        let ghost before = referents(ret@);
        proof {
            reveal(Seq::filter);
            assert(next.drop_last() =~= seen);
            assert(next.last() == *file);
        }
        match keep_file(file_prefix, file, now) {
            Ok(true) => {
                ret.push(file);
                assert(referents(ret@) =~= before.push(*file));
            },
            Ok(false) => {},
            Err(error) => {
                assert(first_undated(file_prefix@, files@, i as int));
                assert(!all_dated(file_prefix@, files@)) by {
                    assert(files@[i as int].file_name@ == file.file_name@);
                }
                return Err(error);
            },
        }
        assert(all_dated(file_prefix@, next)) by {
            assert forall|j: int| 0 <= j < next.len() implies fault_in_name(
                file_prefix@,
                #[trigger] next[j].file_name@,
            ) is None by {
                if j < i {
                    assert(next[j] == seen[j]);
                }
            }
        }
        i += 1;
    }
    assert(files@.take(i as int) =~= files@);
    Ok(ret)
}

/// Whether one of the archives has this path.
pub open spec fn has_path(files: Seq<BackupFile>, path: Seq<char>) -> bool {
    exists|i: int| 0 <= i < files.len() && #[trigger] files[i].path@ == path
}

/// The archives whose path is not the path of any of `kept`.
pub open spec fn is_outside(kept: Seq<BackupFile>) -> spec_fn(BackupFile) -> bool {
    |file: BackupFile| !has_path(kept, file.path@)
}

/// Whether one of the archives has the same path as `file`.
fn is_among(file: &BackupFile, kept: &Vec<&BackupFile>) -> (among: bool)
    ensures
        among == has_path(referents(kept@), file.path@),
{
    let mut i: usize = 0;
    while i < kept.len()
        invariant
            i <= kept.len(),
            !has_path(referents(kept@).take(i as int), file.path@),
        decreases kept.len() - i,
    {
        if kept[i].path == file.path {
            assert(referents(kept@)[i as int].path@ == file.path@);
            return true;
        }
        proof {
            let seen = referents(kept@).take(i as int);
            let next = referents(kept@).take(i + 1);
            assert forall|j: int| 0 <= j < next.len() implies #[trigger] next[j].path@
                != file.path@ by {
                if j < i {
                    assert(seen[j].path@ != file.path@);
                }
            }
        }
        i += 1;
    }
    assert(referents(kept@).take(i as int) =~= referents(kept@));
    false
}

/// The archives that may be deleted: those of `all` whose path is not the
/// path of any archive of `kept`, in the order in which they were given.
pub fn to_discard<'a>(all: &'a Vec<BackupFile>, kept: &Vec<&BackupFile>) -> (rest: Vec<
    &'a BackupFile,
>)
    ensures
        referents(rest@) == all@.filter(is_outside(referents(kept@))),
{
    let mut rest: Vec<&BackupFile> = Vec::new();
    let mut i: usize = 0;
    proof {
        reveal(Seq::filter);
        assert(all@.take(0) =~= Seq::<BackupFile>::empty());
        assert(referents(rest@) =~= Seq::<BackupFile>::empty());
    }
    while i < all.len()
        invariant
            i <= all.len(),
            referents(rest@) == all@.take(i as int).filter(is_outside(referents(kept@))),
        decreases all.len() - i,
    {
        let file = &all[i];
        let ghost before = referents(rest@);
        proof {
            reveal(Seq::filter);
            assert(all@.take(i + 1).drop_last() =~= all@.take(i as int));
            assert(all@.take(i + 1).last() == *file);
        }
        if !is_among(file, kept) {
            rest.push(file);
            assert(referents(rest@) =~= before.push(*file));
        }
        i += 1;
    }
    assert(all@.take(i as int) =~= all@);
    rest
}

/// Whether no two of the archives share a path.
pub open spec fn distinct_paths(files: Seq<BackupFile>) -> bool {
    forall|i: int, j: int|
        0 <= i < j < files.len() ==> #[trigger] files[i].path@ != #[trigger] files[j].path@
}

/// An archive is among the kept ones exactly if it was given and the rules
/// keep its date. So nothing is kept that was not given, and nothing that
/// the rules keep is left out.
pub proof fn lemma_kept_are_the_given_that_the_rules_keep(
    prefix: Seq<char>,
    files: Seq<BackupFile>,
    now: Ymd,
    file: BackupFile,
)
    ensures
        files.filter(is_kept(prefix, now)).contains(file) <==> files.contains(file) && is_kept(
            prefix,
            now,
        )(file),
{
    let keeps = is_kept(prefix, now);
    let kept = files.filter(keeps);
    if kept.contains(file) {
        let k = choose|k: int| 0 <= k < kept.len() && kept[k] == file;
        files.lemma_filter_pred(keeps, k);
        files.lemma_filter_contains_rev(keeps, file);
    }
    if files.contains(file) && keeps(file) {
        let i = choose|i: int| 0 <= i < files.len() && files[i] == file;
        files.lemma_filter_contains(keeps, i);
    }
}

/// Two ways of choosing that agree on every archive of a list choose the
/// same archives from it.
proof fn lemma_filter_by_equal_choices(
    files: Seq<BackupFile>,
    one: spec_fn(BackupFile) -> bool,
    other: spec_fn(BackupFile) -> bool,
)
    requires
        forall|i: int| 0 <= i < files.len() ==> one(#[trigger] files[i]) == other(files[i]),
    ensures
        files.filter(one) == files.filter(other),
    decreases files.len(),
{
    reveal(Seq::filter);
    if files.len() > 0 {
        let rest = files.drop_last();
        assert forall|i: int| 0 <= i < rest.len() implies one(#[trigger] rest[i]) == other(
            rest[i],
        ) by {
            assert(rest[i] == files[i]);
        }
        lemma_filter_by_equal_choices(rest, one, other);
        assert(one(files[files.len() - 1]) == other(files[files.len() - 1]));
    }
}

/// Where no two archives share a path, what may be deleted once the kept
/// archives are set aside is what the rules do not keep: every archive is
/// either kept or deleted, and none is both.
pub proof fn lemma_discarded_are_the_given_that_the_rules_drop(
    prefix: Seq<char>,
    files: Seq<BackupFile>,
    now: Ymd,
)
    requires
        distinct_paths(files),
    ensures
        files.filter(is_outside(files.filter(is_kept(prefix, now)))) == files.filter(
            |file: BackupFile| !is_kept(prefix, now)(file),
        ),
{
    let keeps = is_kept(prefix, now);
    let kept = files.filter(keeps);
    let outside = is_outside(kept);
    let drops = |file: BackupFile| !is_kept(prefix, now)(file);
    assert forall|i: int| 0 <= i < files.len() implies outside(#[trigger] files[i]) == drops(
        files[i],
    ) by {
        if keeps(files[i]) {
            files.lemma_filter_contains(keeps, i);
            let k = choose|k: int| 0 <= k < kept.len() && kept[k] == files[i];
            assert(kept[k].path@ == files[i].path@);
        }
        if has_path(kept, files[i].path@) {
            let k = choose|k: int|
                0 <= k < kept.len() && #[trigger] kept[k].path@ == files[i].path@;
            files.lemma_filter_pred(keeps, k);
            assert(kept.contains(kept[k]));
            files.lemma_filter_contains_rev(keeps, kept[k]);
            let j = choose|j: int| 0 <= j < files.len() && files[j] == kept[k];
            assert(files[j].path@ == files[i].path@);
            assert(j == i);
        }
    }
    lemma_filter_by_equal_choices(files, outside, drops);
}

/// Where no two of the given archives share a path, no two of the kept ones
/// do: no archive is kept twice.
pub proof fn lemma_kept_paths_stay_distinct(prefix: Seq<char>, files: Seq<BackupFile>, now: Ymd)
    requires
        distinct_paths(files),
    ensures
        distinct_paths(files.filter(is_kept(prefix, now))),
    decreases files.len(),
{
    reveal(Seq::filter);
    let keeps = is_kept(prefix, now);
    if files.len() > 0 {
        let rest = files.drop_last();
        let last = files.last();
        assert(distinct_paths(rest)) by {
            assert forall|i: int, j: int| 0 <= i < j < rest.len() implies #[trigger] rest[i].path@
                != #[trigger] rest[j].path@ by {
                assert(files[i].path@ != files[j].path@);
            }
        }
        lemma_kept_paths_stay_distinct(prefix, rest, now);
        let kept = files.filter(keeps);
        assert forall|i: int, j: int| 0 <= i < j < kept.len() implies #[trigger] kept[i].path@
            != #[trigger] kept[j].path@ by {
            if j < rest.filter(keeps).len() {
                assert(rest.filter(keeps)[i].path@ != rest.filter(keeps)[j].path@);
            } else {
                assert(kept[j] == last);
                assert(rest.filter(keeps).contains(kept[i]));
                rest.lemma_filter_contains_rev(keeps, kept[i]);
                let k = choose|k: int| 0 <= k < rest.len() && rest[k] == kept[i];
                assert(files[k].path@ != files[files.len() - 1].path@);
            }
        }
    }
}

} // verus!
