//! Sorting the files a compiler run left behind into MIR dumps and MIR graphs.
use vstd::prelude::*;

use crate::text::str_chars;

verus! {

broadcast use vstd::seq_lib::group_seq_properties;

/// Where MIR artifacts are looked for.
#[derive(Debug, Clone, PartialEq, Eq)]
pub struct MirArtifactConfig {
    pub root: String,
}

/// The MIR dumps and MIR graphs found, in the order they were found.
#[derive(Debug, Clone, PartialEq, Eq)]
pub struct MirArtifactReport {
    pub mir_files: Vec<String>,
    pub dot_files: Vec<String>,
}

/// Sorts found files into MIR artifacts.
#[derive(Debug)]
pub struct MirArtifactCollector;

/// The last component of a path.
pub open spec fn file_name_of(path: Seq<char>) -> Seq<char> {
    match path.index_of_last('/') {
        Some(i) => path.skip(i + 1),
        None => path,
    }
}

/// The extension of a file name: what follows its last `.`, unless that `.` starts the name.
pub open spec fn extension_of(name: Seq<char>) -> Option<Seq<char>> {
    match name.index_of_last('.') {
        Some(i) => if i == 0 {
            None
        } else {
            Some(name.skip(i + 1))
        },
        None => None,
    }
}

/// The files of `paths` whose extension is `ext`, in order.
pub open spec fn with_extension(paths: Seq<Seq<char>>, ext: Seq<char>) -> Seq<Seq<char>>
    decreases paths.len(),
{
    if paths.len() == 0 {
        Seq::empty()
    } else {
        let rest = with_extension(paths.drop_last(), ext);
        if extension_of(file_name_of(paths.last())) == Some(ext) {
            rest.push(paths.last())
        } else {
            rest
        }
    }
}

/// The position of the last `c` in `v`.
fn last_index_of(v: &Vec<char>, c: char) -> (r: Option<usize>)
    ensures
        match r {
            Some(i) => v@.index_of_last(c) == Some(i as int) && i < v.len(),
            None => v@.index_of_last(c) is None,
        },
{
    let mut i: usize = v.len();
    while i > 0 && v[i - 1] != c
        invariant
            i <= v.len(),
            forall|k: int| i <= k < v.len() ==> v@[k] != c,
        decreases i,
    {
        i -= 1;
    }
    proof {
        v@.index_of_last_ensures(c);
    }
    if i == 0 {
        assert(!v@.contains(c)) by {
            if v@.contains(c) {
                let k = choose|k: int| 0 <= k < v@.len() && v@[k] == c;
                assert(v@[k] != c);
            }
        }
        None
    } else {
        proof {
            assert(v@.contains(c)) by {
                assert(v@[i - 1] == c);
            }
            let j = v@.index_of_last(c)->0;
            if j < i - 1 {
                assert(v@[i - 1] == c);
            }
        }
        Some(i - 1)
    }
}

/// The extension of the file a path names (see [`extension_of`]).
pub fn path_extension(path: &str) -> (r: Option<String>)
    ensures
        match r {
            Some(e) => extension_of(file_name_of(path@)) == Some(e@),
            None => extension_of(file_name_of(path@)) is None,
        },
{
    let v = str_chars(path);
    let name: Vec<char> = match last_index_of(&v, '/') {
        Some(i) => {
            let n = crate::text::slice_range(&v, i + 1, v.len());
            assert(n@ =~= v@.skip(i + 1));
            n
        },
        None => crate::text::slice_range(&v, 0, v.len()),
    };
    assert(v@.subrange(0, v.len() as int) =~= v@);
    match last_index_of(&name, '.') {
        Some(i) => {
            if i == 0 {
                None
            } else {
                let e = crate::text::slice_range(&name, i + 1, name.len());
                assert(e@ =~= name@.skip(i + 1));
                Some(crate::text::string_from_chars(&e))
            }
        },
        None => None,
    }
}

impl MirArtifactCollector {
    pub fn new() -> (r: Self) {
        MirArtifactCollector
    }

    /// The MIR dumps (`.mir`) and MIR graphs (`.dot`) among the files found, in order.
    pub fn collect(&self, files: &Vec<String>) -> (r: MirArtifactReport)
        ensures
            crate::text::texts(r.mir_files@) == with_extension(crate::text::texts(files@), "mir"@),
            crate::text::texts(r.dot_files@) == with_extension(crate::text::texts(files@), "dot"@),
    {
        let ghost fs = crate::text::texts(files@);
        let mut mir_files: Vec<String> = Vec::new();
        let mut dot_files: Vec<String> = Vec::new();
        let mut i: usize = 0;
        assert(fs.take(0) =~= Seq::<Seq<char>>::empty());
        while i < files.len()
            invariant
                i <= files.len(),
                fs == crate::text::texts(files@),
                crate::text::texts(mir_files@) == with_extension(fs.take(i as int), "mir"@),
                crate::text::texts(dot_files@) == with_extension(fs.take(i as int), "dot"@),
            decreases files.len() - i,
        {
            assert(fs.take(i + 1).drop_last() =~= fs.take(i as int));
            assert(fs[i as int] == files@[i as int]@);
            let ext = path_extension(files[i].as_str());
            match ext {
                Some(e) => {
                    if crate::text::str_eq(e.as_str(), "mir") {
                        let ghost before = mir_files@;
                        mir_files.push(files[i].clone());
                        assert(crate::text::texts(mir_files@) =~= crate::text::texts(before).push(files@[i as int]@));
                        proof {
                            reveal_strlit("mir");
                            reveal_strlit("dot");
                            assert("mir"@ != "dot"@) by {
                                assert("mir"@[0] != "dot"@[0]);
                            }
                        }
                    } else if crate::text::str_eq(e.as_str(), "dot") {
                        let ghost before = dot_files@;
                        dot_files.push(files[i].clone());
                        assert(crate::text::texts(dot_files@) =~= crate::text::texts(before).push(files@[i as int]@));
                    }
                },
                None => {},
            }
            i += 1;
        }
        assert(fs.take(i as int) =~= fs);
        MirArtifactReport { mir_files, dot_files }
    }
}

} // verus!
