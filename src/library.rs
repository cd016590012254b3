//! Library names: which names are accepted, where a library lives on disk,
//! and how the directory of libraries is listed.

use vstd::prelude::*;
use crate::error::{ErrorKind, MemoryError};
use crate::order::{lemma_name_order_total, name_order, sort_names};
use crate::text::{chars_of, concat_str, string_from_chars};
use vstd::relations::sorted_by;
use vstd::string::StringExecFns;

verus! {

/// `c` occurs in `s`.
pub open spec fn has_char(s: Seq<char>, c: char) -> bool {
    exists|i: int| 0 <= i < s.len() && s[i] == c
}

/// `s` holds two consecutive dots.
pub open spec fn has_double_dot(s: Seq<char>) -> bool {
    exists|i: int| 0 <= i && i + 1 < s.len() && #[trigger] s[i] == '.' && s[i + 1] == '.'
}

/// A library name is non-empty and holds no `/`, no `\` and no `..`.
pub open spec fn valid_library_name(s: Seq<char>) -> bool {
    &&& s.len() > 0
    &&& !has_char(s, '/')
    &&& !has_char(s, '\\')
    &&& !has_double_dot(s)
}

/// Checks a library name; every rejection is `InvalidInput`.
pub fn validate_library_name(name: &str) -> (r: Result<(), MemoryError>)
    ensures
        r is Ok <==> valid_library_name(name@),
        r matches Err(e) ==> e.kind == ErrorKind::InvalidInput,
{
    let cs = chars_of(name);
    if cs.len() == 0 {
        return Err(MemoryError::new(ErrorKind::InvalidInput, "library name must not be empty".to_string()));
    }
    let mut i: usize = 0;
    while i < cs.len()
        invariant
            cs@ == name@,
            i <= cs.len(),
            forall|j: int| 0 <= j < i ==> cs@[j] != '/' && cs@[j] != '\\',
            forall|j: int| 0 <= j && j + 1 < i ==> !(#[trigger] cs@[j] == '.' && cs@[j + 1] == '.'),
        decreases cs.len() - i,
    {
        let c = cs[i];
        if c == '/' || c == '\\' {
            return Err(MemoryError::new(ErrorKind::InvalidInput, "library name must not contain a path separator".to_string()));
        }
        if c == '.' && i > 0 && cs[i - 1] == '.' {
            assert(name@[i - 1] == '.' && name@[i as int] == '.');
            return Err(MemoryError::new(ErrorKind::InvalidInput, "library name must not contain '..'".to_string()));
        }
        i = i + 1;
    }
    Ok(())
}

/// The file name of a library: `{name}.db`.
pub open spec fn library_file_name_of(name: Seq<char>) -> Seq<char> {
    name + ".db"@
}

/// The file name under which a library is stored.
pub fn library_file_name(name: &str) -> (r: String)
    ensures
        r@ == library_file_name_of(name@),
{
    concat_str(name, ".db")
}

/// Where library `name` is stored under the data directory `data_dir`.
pub open spec fn library_path_of(data_dir: Seq<char>, name: Seq<char>) -> Seq<char> {
    data_dir + "/memory/"@ + library_file_name_of(name)
}

/// The path of library `name`'s database: `{data_dir}/memory/{name}.db`.
pub fn library_db_path(data_dir: &str, name: &str) -> (r: String)
    ensures
        r@ == library_path_of(data_dir@, name@),
{
    let mut r = concat_str(data_dir, "/memory/");
    r.append(name);
    r.append(".db");
    r
}

/// The stem of a file name ending in `.db` with at least one character before it.
pub open spec fn db_stem(f: Seq<char>) -> Option<Seq<char>> {
    if f.len() > 3 && f.subrange(f.len() - 3, f.len() as int) == ".db"@ {
        Some(f.subrange(0, f.len() - 3))
    } else {
        None
    }
}

/// The stem of `file` if it names a library.
pub fn library_stem(file: &str) -> (r: Option<String>)
    ensures
        r is Some <==> db_stem(file@) is Some,
        r matches Some(s) ==> s@ == db_stem(file@)->0,
{
    let cs = chars_of(file);
    let n = cs.len();
    if n > 3 && cs[n - 3] == '.' && cs[n - 2] == 'd' && cs[n - 1] == 'b' {
        let mut stem: Vec<char> = Vec::new();
        let mut i: usize = 0;
        while i < n - 3
            invariant
                n == cs.len(),
                n > 3,
                i <= n - 3,
                stem@ == cs@.subrange(0, i as int),
            decreases n - 3 - i,
        {
            stem.push(cs[i]);
            assert(cs@.subrange(0, i as int + 1) == cs@.subrange(0, i as int).push(cs@[i as int]));
            i = i + 1;
        }
        proof {
            reveal_strlit(".db");
            assert(file@.subrange(n - 3, n as int) == ".db"@);
        }
        Some(string_from_chars(&stem))
    } else {
        proof {
            reveal_strlit(".db");
            if file@.len() > 3 {
                let t = file@.subrange(file@.len() - 3, file@.len() as int);
                if t == ".db"@ {
                    assert(t[0] == '.' && t[1] == 'd' && t[2] == 'b');
                }
            }
        }
        None
    }
}

/// The library names among `files`, in directory order.
pub open spec fn library_stems(files: Seq<Seq<char>>) -> Seq<Seq<char>>
    decreases files.len(),
{
    if files.len() == 0 {
        Seq::empty()
    } else {
        let rest = library_stems(files.drop_last());
        match db_stem(files.last()) {
            Some(stem) => rest.push(stem),
            None => rest,
        }
    }
}

/// The listing of a directory holding `files`: its library names, sorted.
pub open spec fn library_listing(files: Seq<Seq<char>>) -> Seq<Seq<char>> {
    library_stems(files).sort_by(name_order())
}

/// The views of a vector of strings.
pub open spec fn views(v: Seq<String>) -> Seq<Seq<char>> {
    v.map_values(|s: String| s@)
}

/// Lists the libraries stored in a directory whose entries are `files`:
/// the stems of the `.db` entries, sorted by name.
pub fn list_library_names(files: &Vec<String>) -> (r: Vec<String>)
    ensures
        views(r@) == library_listing(views(files@)),
{
    let mut names: Vec<String> = Vec::new();
    let mut i: usize = 0;
    while i < files.len()
        invariant
            i <= files.len(),
            views(names@) == library_stems(views(files@).subrange(0, i as int)),
        decreases files.len() - i,
    {
        let stem = library_stem(files[i].as_str());
        proof {
            let pre = views(files@).subrange(0, i as int + 1);
            assert(pre.drop_last() == views(files@).subrange(0, i as int));
            assert(pre.last() == files@[i as int]@);
        }
        match stem {
            Some(s) => {
                let ghost before = names@;
                names.push(s);
                proof {
                    assert(views(names@) == views(before).push(s@));
                }
            },
            None => {},
        }
        i = i + 1;
    }
    sort_names(&mut names);
    proof {
        assert(views(files@).subrange(0, files.len() as int) == views(files@));
        lemma_name_order_total();
        library_stems(views(files@)).lemma_sort_by_ensures(name_order());
        vstd::seq_lib::lemma_sorted_unique(views(names@), library_listing(views(files@)), name_order());
    }
    names
}

proof fn lemma_stems_nonempty(files: Seq<Seq<char>>)
    ensures
        forall|n: Seq<char>| library_stems(files).contains(n) ==> n.len() > 0,
    decreases files.len(),
{
    if files.len() > 0 {
        let rest = library_stems(files.drop_last());
        lemma_stems_nonempty(files.drop_last());
        match db_stem(files.last()) {
            Some(stem) => {
                assert forall|n: Seq<char>| rest.push(stem).contains(n) implies n.len() > 0 by {
                    if n != stem {
                        let i = choose|i: int| 0 <= i < rest.push(stem).len() && rest.push(stem)[i] == n;
                        assert(rest.contains(rest[i]));
                    }
                }
            },
            None => {},
        }
    }
}

proof fn lemma_stem_of_file_name(n: Seq<char>)
    requires
        n.len() > 0,
    ensures
        db_stem(library_file_name_of(n)) == Some(n),
{
    reveal_strlit(".db");
    let f = library_file_name_of(n);
    assert(f.subrange(f.len() - 3, f.len() as int) =~= ".db"@);
    assert(f.subrange(0, f.len() - 3) =~= n);
}

proof fn lemma_stems_of_file_names(names: Seq<Seq<char>>)
    requires
        forall|i: int| 0 <= i < names.len() ==> (#[trigger] names[i]).len() > 0,
    ensures
        library_stems(names.map_values(|n: Seq<char>| library_file_name_of(n))) == names,
    decreases names.len(),
{
    let files = names.map_values(|n: Seq<char>| library_file_name_of(n));
    if names.len() > 0 {
        let init = names.drop_last();
        assert(files.drop_last() == init.map_values(|n: Seq<char>| library_file_name_of(n)));
        lemma_stems_of_file_names(init);
        lemma_stem_of_file_name(names.last());
        assert(names == init.push(names.last()));
    } else {
        assert(files.len() == 0);
    }
}

/// A listing is sorted by name, and listing a directory that holds exactly
/// the files of a listing gives the same listing again.
pub proof fn lemma_listing_sorted_and_idempotent(files: Seq<Seq<char>>)
    ensures
        sorted_by(library_listing(files), name_order()),
        library_listing(
            library_listing(files).map_values(|n: Seq<char>| library_file_name_of(n)),
        ) == library_listing(files),
{
    let listing = library_listing(files);
    lemma_name_order_total();
    library_stems(files).lemma_sort_by_ensures(name_order());
    lemma_stems_nonempty(files);
    assert forall|i: int| 0 <= i < listing.len() implies (#[trigger] listing[i]).len() > 0 by {
        assert(listing.contains(listing[i]));
    }
    lemma_stems_of_file_names(listing);
    listing.lemma_sort_by_ensures(name_order());
    vstd::seq_lib::lemma_sorted_unique(listing, listing.sort_by(name_order()), name_order());
}

} // verus!
