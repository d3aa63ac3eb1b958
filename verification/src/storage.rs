//! Where the mod file is taken from, and how the files of profiles are named.
//!
//! The mod file is the one the caller points to; without such a path it is
//! the first of the usual places that has a file. A profile is kept in a file
//! of its own, named after the profile, with the extension `.toml`.

use crate::error::Error;
use crate::mod_data::path_exists;
use vstd::prelude::*;
use vstd::string::StringExecFns;

verus! {

/// The views of a run of strings, in order.
pub open spec fn text_views(texts: Seq<String>) -> Seq<Seq<char>> {
    texts.map_values(|t: String| t@)
}

/// The view of a string that may be absent.
pub open spec fn text_view(text: Option<String>) -> Option<Seq<char>> {
    match text {
        Some(t) => Some(t@),
        None => None,
    }
}

/// The first place that `present` vouches for among the first `limit`.
pub open spec fn first_present(present: Seq<bool>, limit: int) -> Option<int> {
    if 0 <= limit < present.len() {
        present.take(limit).index_of_first(true)
    } else {
        present.index_of_first(true)
    }
}

/// The mod file's path: `custom` where there is one; else the first of
/// `candidates` that `present` vouches for, place by place; else none.
pub open spec fn picked(
    custom: Option<Seq<char>>,
    candidates: Seq<Seq<char>>,
    present: Seq<bool>,
) -> Option<Seq<char>> {
    match custom {
        Some(path) => Some(path),
        None => match first_present(present, candidates.len() as int) {
            Some(at) => Some(candidates[at]),
            None => None,
        },
    }
}

/// Picks the mod file's path, given for each candidate whether it exists.
/// A path of the caller's own is taken as it is, whether it exists or not.
pub fn pick_mod_file(
    custom: Option<String>,
    candidates: &Vec<String>,
    present: &Vec<bool>,
) -> (found: Result<String, Error>)
    ensures
        match picked(text_view(custom), text_views(candidates@), present@) {
            Some(path) => found matches Ok(p) && p@ == path,
            None => found == Err::<String, Error>(Error::NotFound),
        },
{
    if let Some(path) = custom {
        return Ok(path);
    }
    let n = if present.len() < candidates.len() {
        present.len()
    } else {
        candidates.len()
    };
    let ghost usable = if candidates.len() < present.len() {
        present@.take(candidates.len() as int)
    } else {
        present@
    };
    let mut i: usize = 0;
    while i < n
        invariant
            custom is None,
            n == usable.len(),
            n <= candidates.len(),
            i <= n,
            usable == if candidates.len() < present.len() {
                present@.take(candidates.len() as int)
            } else {
                present@
            },
            forall|j: int| 0 <= j < i ==> !usable[j],
        decreases n - i,
    {
        if present[i] {
            proof {
                assert(usable[i as int]);
                usable.index_of_first_ensures(true);
            }
            return Ok(candidates[i].clone());
        }
        i += 1;
    }
    proof {
        usable.index_of_first_ensures(true);
    }
    Err(Error::NotFound)
}

/// Finds the mod file's path: `custom` where there is one, else the first of
/// `candidates` that is on disk now. Which that is depends on the file system:
/// the result is what `pick_mod_file` yields for the answers it gave.
pub fn resolve_mod_file_path(custom: Option<String>, candidates: &Vec<String>) -> (found: Result<
    String,
    Error,
>)
    ensures
        custom matches Some(path) ==> found matches Ok(p) && p@ == path@,
        custom is None && candidates.len() == 0 ==> found == Err::<String, Error>(Error::NotFound),
        found matches Ok(p) ==> text_view(custom) == Some(p@) || text_views(candidates@).contains(
            p@,
        ),
        exists|present: Seq<bool>|
            present.len() == candidates.len() && match #[trigger] picked(
                text_view(custom),
                text_views(candidates@),
                present,
            ) {
                Some(path) => found matches Ok(p) && p@ == path,
                None => found == Err::<String, Error>(Error::NotFound),
            },
{
    match custom {
        Some(path) => {
            proof {
                let unseen = Seq::new(candidates.len() as nat, |i: int| false);
                assert(picked(Some(path@), text_views(candidates@), unseen) == Some(path@));
            }
            Ok(path)
        },
        None => {
            let n = candidates.len();
            let mut present: Vec<bool> = Vec::new();
            let mut i: usize = 0;
            while i < n
                invariant
                    n == candidates.len(),
                    i <= n,
                    present.len() == i,
                decreases n - i,
            {
                present.push(path_exists(candidates[i].as_str()));
                i += 1;
            }
            let found = pick_mod_file(None, candidates, &present);
            proof {
                present@.index_of_first_ensures(true);
                if let Some(at) = present@.index_of_first(true) {
                    assert(text_views(candidates@)[at] == candidates[at]@);
                }
            }
            found
        },
    }
}

/// The extension of a profile's file, with its dot.
pub open spec fn extension() -> Seq<char> {
    seq!['.', 't', 'o', 'm', 'l']
}

/// The name of the file that keeps the profile `name`.
pub open spec fn file_name_of(name: Seq<char>) -> Seq<char> {
    name + extension()
}

/// The profile that the file `file_name` keeps: the file's name without the
/// extension, where it ends in the extension and is more than that.
pub open spec fn profile_name_of(file_name: Seq<char>) -> Option<Seq<char>> {
    let n = file_name.len() - extension().len();
    if n > 0 && file_name.skip(n) == extension() {
        Some(file_name.take(n))
    } else {
        None
    }
}

/// The test and step "the profile that this file keeps, if it keeps one".
pub open spec fn kept_profile() -> spec_fn(Seq<char>) -> Option<Seq<char>> {
    |file_name: Seq<char>| profile_name_of(file_name)
}

/// The name of the file that keeps the profile `name`.
pub fn profile_file_name(name: &str) -> (file_name: String)
    ensures
        file_name@ == file_name_of(name@),
{
    proof {
        reveal_strlit(".toml");
    }
    let ending = ".toml";
    assert(ending@ == extension());
    String::from_str(name).concat(ending)
}

/// The profile that the file `file_name` keeps, if it keeps one.
pub fn profile_name(file_name: &str) -> (name: Option<String>)
    ensures
        text_view(name) == profile_name_of(file_name@),
{
    let len = file_name.unicode_len();
    if len <= 5 {
        return None;
    }
    let n = len - 5;
    if file_name.get_char(n) == '.' && file_name.get_char(n + 1) == 't' && file_name.get_char(
        n + 2,
    ) == 'o' && file_name.get_char(n + 3) == 'm' && file_name.get_char(n + 4) == 'l' {
        assert(file_name@.skip(n as int) == extension());
        let stem = file_name.substring_char(0, n);
        assert(stem@ == file_name@.take(n as int));
        Some(String::from_str(stem))
    } else {
        assert(file_name@.skip(n as int)[0] == file_name@[n as int]);
        assert(file_name@.skip(n as int)[1] == file_name@[n + 1]);
        assert(file_name@.skip(n as int)[2] == file_name@[n + 2]);
        assert(file_name@.skip(n as int)[3] == file_name@[n + 3]);
        assert(file_name@.skip(n as int)[4] == file_name@[n + 4]);
        None
    }
}

/// The profiles that the files `file_names` keep, in the order of the files.
pub fn profile_names(file_names: &Vec<String>) -> (names: Vec<String>)
    ensures
        text_views(names@) == text_views(file_names@).filter_map(kept_profile()),
{
    let ghost all = text_views(file_names@);
    let n = file_names.len();
    let mut names: Vec<String> = Vec::new();
    let mut i: usize = 0;
    assert(all.take(0).filter_map(kept_profile()) == Seq::<Seq<char>>::empty());
    while i < n
        invariant
            n == file_names.len(),
            i <= n,
            all == text_views(file_names@),
            text_views(names@) == all.take(i as int).filter_map(kept_profile()),
        decreases n - i,
    {
        let ghost before = text_views(names@);
        proof {
            all.lemma_filter_map_take_succ(kept_profile(), i as int);
        }
        match profile_name(file_names[i].as_str()) {
            Some(name) => {
                names.push(name);
                assert(text_views(names@) == before + seq![name@]);
            },
            None => {
                assert(before + Seq::<Seq<char>>::empty() == before);
            },
        }
        i += 1;
    }
    assert(all.take(n as int) == all);
    names
}

/// A profile with a name is found again under that name: the file that keeps
/// it is read as keeping it.
pub proof fn lemma_profile_file_keeps_name(name: Seq<char>)
    requires
        name.len() > 0,
    ensures
        profile_name_of(file_name_of(name)) == Some(name),
{
    let file_name = file_name_of(name);
    assert(file_name.skip(name.len() as int) =~= extension());
    assert(file_name.take(name.len() as int) =~= name);
}

/// A file is read as keeping a profile only if it is the file that keeps
/// that profile.
pub proof fn lemma_profile_name_has_file(file_name: Seq<char>)
    ensures
        profile_name_of(file_name) matches Some(name) ==> name.len() > 0 && file_name_of(name)
            == file_name,
{
    if let Some(name) = profile_name_of(file_name) {
        let n = file_name.len() - extension().len();
        assert(file_name.take(n) + file_name.skip(n) =~= file_name);
    }
}

} // verus!
