//! The files that come with the launcher, and when they are copied to the user's
//! configuration.

use crate::paths::{temp_name, temp_path};
use crate::text::{begins, contains_text};
use vstd::prelude::*;

verus! {

/// Whether two runs of bytes are the same.
fn same_bytes(a: &[u8], b: &[u8]) -> (r: bool)
    ensures
        r == (a@ == b@),
{
    if a.len() != b.len() {
        return false;
    }
    let mut i: usize = 0;
    while i < a.len()
        invariant
            a@.len() == b@.len(),
            i <= a@.len(),
            forall|j: int| 0 <= j < i ==> a@[j] == b@[j],
        decreases a@.len() - i,
    {
        if a[i] != b[i] {
            return false;
        }
        i = i + 1;
    }
    assert(a@ =~= b@);
    true
}

/// Whether a bundled file is to be written: one that is there already is left alone
/// unless files are to be overwritten, and one that is there unchanged is left alone
/// in any case.
pub open spec fn to_be_written(
    overwrite: bool,
    exists: bool,
    current: Option<Seq<u8>>,
    contents: Seq<u8>,
) -> bool {
    (overwrite || !exists) && current != Some(contents)
}

/// Whether a bundled file is to be written. `current` is what the file holds now,
/// where it can be read.
pub fn exports(overwrite: bool, exists: bool, current: Option<&[u8]>, contents: &[u8]) -> (b: bool)
    ensures
        b == to_be_written(
            overwrite,
            exists,
            match current {
                Some(c) => Some(c@),
                None => None,
            },
            contents@,
        ),
{
    if !overwrite && exists {
        return false;
    }
    match current {
        Some(c) => !same_bytes(c, contents),
        None => true,
    }
}

/// The length of the longest of `names`.
pub open spec fn longest(names: Seq<Seq<char>>) -> nat
    decreases names.len(),
{
    if names.len() == 0 {
        0
    } else if names.last().len() > longest(names.drop_last()) {
        names.last().len()
    } else {
        longest(names.drop_last())
    }
}

/// None of `names` is longer than the longest.
pub proof fn lemma_longest(names: Seq<Seq<char>>, name: Seq<char>)
    requires
        names.contains(name),
    ensures
        name.len() <= longest(names),
    decreases names.len(),
{
    let i = choose|i: int| 0 <= i < names.len() && names[i] == name;
    if i < names.len() - 1 {
        assert(names.drop_last()[i] == name);
        lemma_longest(names.drop_last(), name);
    }
}

/// `name`, with as many `~` behind it as it takes to be none of `taken`.
pub open spec fn free_name(name: Seq<char>, taken: Seq<Seq<char>>) -> Seq<char>
    decreases longest(taken) + 1 - name.len(),
{
    if taken.contains(name) {
        proof {
            lemma_longest(taken, name);
        }
        free_name(name.push('~'), taken)
    } else {
        name
    }
}

/// Where a bundled file is written before it is moved to `dest`: beside it, under a
/// name that no file in the directory has. `taken` are the files there.
pub fn export_temp(dest: &str, taken: &Vec<String>) -> (r: String)
    ensures
        r@ == free_name(temp_name(dest@), taken.deep_view()),
{
    let mut name = temp_path(dest);
    let ghost goal = free_name(temp_name(dest@), taken.deep_view());
    while contains_text(taken, name.as_str())
        invariant
            free_name(name@, taken.deep_view()) == goal,
        decreases longest(taken.deep_view()) + 1 - name@.len(),
    {
        proof {
            lemma_longest(taken.deep_view(), name@);
        }
        let ghost before = name@;
        name.push('~');
        assert(name@ =~= before.push('~'));
    }
    name
}

// ---- Laws ------------------------------------------------------------------

/// Files by their paths.
pub type Files = Map<Seq<char>, Seq<u8>>;

/// A bundled file: the path that it is copied to, and what it holds.
pub type Bundled = (Seq<char>, Seq<u8>);

/// The files after one bundled file was copied, if it was: written under another
/// name, and moved.
#[verifier::opaque]
pub open spec fn copied(files: Files, overwrite: bool, file: Bundled, taken: Seq<Seq<char>>) -> Files {
    let (dest, contents) = file;
    let current = if files.contains_key(dest) {
        Some(files[dest])
    } else {
        None
    };
    if to_be_written(overwrite, files.contains_key(dest), current, contents) {
        let temp = free_name(temp_name(dest), taken);
        files.insert(temp, contents).remove(temp).insert(dest, contents)
    } else {
        files
    }
}

/// A path that a file may be written to before it is moved to `dest`.
pub open spec fn is_temp(dest: Seq<char>, path: Seq<char>) -> bool {
    &&& begins(path, temp_name(dest))
    &&& forall|i: int| temp_name(dest).len() <= i < path.len() ==> #[trigger] path[i] == '~'
}

/// `taken` holds each file that is there under a name that a file may have before it
/// is moved to `dest`.
pub open spec fn all_taken(files: Files, dest: Seq<char>, taken: Seq<Seq<char>>) -> bool {
    forall|p: Seq<char>| files.contains_key(p) && is_temp(dest, p) ==> #[trigger] taken.contains(p)
}

/// The files after all bundled ones were copied; `taken` are the names that were not
/// free before each.
pub open spec fn all_copied(
    files: Files,
    overwrite: bool,
    bundle: Seq<Bundled>,
    taken: Seq<Seq<Seq<char>>>,
) -> Files
    decreases bundle.len(),
{
    if bundle.len() == 0 {
        files
    } else {
        copied(
            all_copied(files, overwrite, bundle.drop_last(), taken),
            overwrite,
            bundle.last(),
            taken[bundle.len() - 1],
        )
    }
}

/// `taken` are the files of such names that are there before each bundled file is
/// copied.
#[verifier::opaque]
pub open spec fn each_taken(
    files: Files,
    overwrite: bool,
    bundle: Seq<Bundled>,
    taken: Seq<Seq<Seq<char>>>,
) -> bool {
    forall|n: int|
        0 <= n < bundle.len() ==> all_taken(
            all_copied(files, overwrite, bundle.take(n), taken),
            bundle[n].0,
            #[trigger] taken[n],
        )
}

proof fn lemma_free_name(dest: Seq<char>, name: Seq<char>, taken: Seq<Seq<char>>)
    requires
        is_temp(dest, name),
    ensures
        !taken.contains(free_name(name, taken)),
        is_temp(dest, free_name(name, taken)),
    decreases longest(taken) + 1 - name.len(),
{
    if taken.contains(name) {
        lemma_longest(taken, name);
        let n = temp_name(dest).len() as int;
        assert(name.push('~').take(n) =~= name.take(n));
        lemma_free_name(dest, name.push('~'), taken);
    }
}

proof fn lemma_copied(
    files: Files,
    overwrite: bool,
    file: Bundled,
    taken: Seq<Seq<char>>,
    p: Seq<char>,
)
    requires
        all_taken(files, file.0, taken),
    ensures
        copied(files, overwrite, file, taken).contains_key(file.0),
        overwrite || !files.contains_key(file.0) ==> copied(files, overwrite, file, taken)[file.0]
            == file.1,
        p != file.0 ==> copied(files, overwrite, file, taken).contains_key(p)
            == files.contains_key(p),
        files.contains_key(p) && (p != file.0 || !overwrite) ==> copied(
            files,
            overwrite,
            file,
            taken,
        )[p] == files[p],
{
    reveal(copied);
    let temp = free_name(temp_name(file.0), taken);
    assert(temp_name(file.0).take(temp_name(file.0).len() as int) =~= temp_name(file.0));
    lemma_free_name(file.0, temp_name(file.0), taken);
    if files.contains_key(temp) {
        assert(taken.contains(temp));
    }
    reveal_strlit(".tmp");
    assert(temp != file.0);
}

/// No bundled file is copied to `path`.
pub open spec fn not_bundled(bundle: Seq<Bundled>, path: Seq<char>) -> bool {
    forall|i: int| 0 <= i < bundle.len() ==> (#[trigger] bundle[i]).0 != path
}

proof fn lemma_each_taken(
    files: Files,
    overwrite: bool,
    bundle: Seq<Bundled>,
    taken: Seq<Seq<Seq<char>>>,
)
    requires
        bundle.len() > 0,
        each_taken(files, overwrite, bundle, taken),
    ensures
        each_taken(files, overwrite, bundle.drop_last(), taken),
        all_taken(
            all_copied(files, overwrite, bundle.drop_last(), taken),
            bundle.last().0,
            taken[bundle.len() - 1],
        ),
{
    reveal(each_taken);
    let init = bundle.drop_last();
    let n = bundle.len() - 1;
    assert(bundle.take(n) =~= init);
    assert(all_taken(all_copied(files, overwrite, bundle.take(n), taken), bundle[n].0, taken[n]));
    assert forall|k: int| 0 <= k < init.len() implies all_taken(
        all_copied(files, overwrite, init.take(k), taken),
        init[k].0,
        #[trigger] taken[k],
    ) by {
        assert(init.take(k) =~= bundle.take(k));
    }
}

/// Starting the launcher leaves every file that is there as it is, and makes no file
/// but the bundled ones.
pub proof fn law_users_files_stay(
    files: Files,
    bundle: Seq<Bundled>,
    taken: Seq<Seq<Seq<char>>>,
    path: Seq<char>,
)
    requires
        each_taken(files, false, bundle, taken),
    ensures
        files.contains_key(path) ==> all_copied(files, false, bundle, taken).contains_key(path)
            && all_copied(files, false, bundle, taken)[path] == files[path],
        !files.contains_key(path) && not_bundled(bundle, path) ==> !all_copied(
            files,
            false,
            bundle,
            taken,
        ).contains_key(path),
    decreases bundle.len(),
{
    if bundle.len() > 0 {
        let init = bundle.drop_last();
        lemma_each_taken(files, false, bundle, taken);
        law_users_files_stay(files, init, taken, path);
        let before = all_copied(files, false, init, taken);
        lemma_copied(before, false, bundle.last(), taken[bundle.len() - 1], path);
        if not_bundled(bundle, path) {
            assert forall|i: int| 0 <= i < init.len() implies (#[trigger] init[i]).0 != path by {
                assert(bundle[i].0 != path);
            }
            assert(bundle[bundle.len() - 1].0 != path);
        }
    }
}

/// Once the launcher has started, every bundled file is there; one that was missing
/// holds what is bundled.
pub proof fn law_missing_files_are_made(
    files: Files,
    bundle: Seq<Bundled>,
    taken: Seq<Seq<Seq<char>>>,
    i: int,
)
    requires
        each_taken(files, false, bundle, taken),
        0 <= i < bundle.len(),
    ensures
        all_copied(files, false, bundle, taken).contains_key(bundle[i].0),
        !files.contains_key(bundle[i].0) && not_bundled(bundle.take(i), bundle[i].0) ==> all_copied(
            files,
            false,
            bundle,
            taken,
        )[bundle[i].0] == bundle[i].1,
    decreases bundle.len(),
{
    let init = bundle.drop_last();
    let n = bundle.len() - 1;
    let path = bundle[i].0;
    lemma_each_taken(files, false, bundle, taken);
    let before = all_copied(files, false, init, taken);
    lemma_copied(before, false, bundle.last(), taken[n], path);
    if i < n {
        assert(init[i] == bundle[i]);
        assert(init.take(i) =~= bundle.take(i));
        law_missing_files_are_made(files, init, taken, i);
    } else {
        assert(bundle.take(i) =~= init);
        law_users_files_stay(files, init, taken, path);
    }
}

/// Copying over what is there restores every bundled file, and touches no other.
pub proof fn law_reexport_restores(
    files: Files,
    bundle: Seq<Bundled>,
    taken: Seq<Seq<Seq<char>>>,
    path: Seq<char>,
)
    requires
        each_taken(files, true, bundle, taken),
        forall|i: int, j: int|
            0 <= i < j < bundle.len() ==> (#[trigger] bundle[i]).0 != (#[trigger] bundle[j]).0,
    ensures
        not_bundled(bundle, path) ==> all_copied(files, true, bundle, taken).contains_key(path)
            == files.contains_key(path),
        not_bundled(bundle, path) && files.contains_key(path) ==> all_copied(
            files,
            true,
            bundle,
            taken,
        )[path] == files[path],
        forall|i: int|
            0 <= i < bundle.len() && (#[trigger] bundle[i]).0 == path ==> all_copied(
                files,
                true,
                bundle,
                taken,
            ).contains_key(path) && all_copied(files, true, bundle, taken)[path] == bundle[i].1,
    decreases bundle.len(),
{
    if bundle.len() > 0 {
        let init = bundle.drop_last();
        let n = bundle.len() - 1;
        lemma_each_taken(files, true, bundle, taken);
        assert forall|i: int, j: int| 0 <= i < j < init.len() implies (#[trigger] init[i]).0 != (
        #[trigger] init[j]).0 by {
            assert(bundle[i].0 != bundle[j].0);
        }
        law_reexport_restores(files, init, taken, path);
        let before = all_copied(files, true, init, taken);
        let after = all_copied(files, true, bundle, taken);
        lemma_copied(before, true, bundle.last(), taken[n], path);
        if not_bundled(bundle, path) {
            assert forall|i: int| 0 <= i < init.len() implies (#[trigger] init[i]).0 != path by {
                assert(bundle[i].0 != path);
            }
            assert(bundle[n].0 != path);
        }
        assert forall|i: int| 0 <= i < bundle.len() && (#[trigger] bundle[i]).0 == path implies
            after.contains_key(path) && after[path] == bundle[i].1 by {
            if i < n {
                assert(bundle[i].0 != bundle[n].0);
                assert(init[i] == bundle[i]);
            }
        }
    }
}

/// A file that is there is not written when the launcher starts, whatever it holds.
pub proof fn law_present_files_are_not_written(current: Option<Seq<u8>>, contents: Seq<u8>)
    ensures
        !to_be_written(false, true, current, contents),
{
}

/// A file that was just written is not written again.
pub proof fn law_written_once(overwrite: bool, contents: Seq<u8>)
    ensures
        !to_be_written(overwrite, true, Some(contents), contents),
{
}

} // verus!
