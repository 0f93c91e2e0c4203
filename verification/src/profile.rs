//! Picking the self-profile data files out of the files a compiler run left behind.
use vstd::prelude::*;

use crate::mir_artifacts::{extension_of, file_name_of, path_extension};

verus! {

broadcast use vstd::seq_lib::group_seq_properties;

/// Where self-profile data is looked for.
#[derive(Debug, Clone, PartialEq, Eq)]
pub struct SelfProfileConfig {
    pub root: String,
}

/// Picks self-profile data files out of found files.
#[derive(Debug)]
pub struct SelfProfileCollector;

/// A file holds self-profile data: its extension is `mm_profdata` or `mm_profraw`.
pub open spec fn is_profile_data(path: Seq<char>) -> bool {
    extension_of(file_name_of(path)) == Some("mm_profdata"@) || extension_of(file_name_of(path))
        == Some("mm_profraw"@)
}

/// The self-profile data files among `paths`, in order.
pub open spec fn profile_data_files(paths: Seq<Seq<char>>) -> Seq<Seq<char>>
    decreases paths.len(),
{
    if paths.len() == 0 {
        Seq::empty()
    } else {
        let rest = profile_data_files(paths.drop_last());
        if is_profile_data(paths.last()) {
            rest.push(paths.last())
        } else {
            rest
        }
    }
}

impl SelfProfileCollector {
    pub fn new() -> (r: Self) {
        SelfProfileCollector
    }

    /// The self-profile data files among the files found, in order.
    pub fn collect(&self, files: &Vec<String>) -> (r: Vec<String>)
        ensures
            crate::text::texts(r@) == profile_data_files(crate::text::texts(files@)),
    {
        let ghost fs = crate::text::texts(files@);
        let mut artifacts: Vec<String> = Vec::new();
        let mut i: usize = 0;
        assert(fs.take(0) =~= Seq::<Seq<char>>::empty());
        while i < files.len()
            invariant
                i <= files.len(),
                fs == crate::text::texts(files@),
                crate::text::texts(artifacts@) == profile_data_files(fs.take(i as int)),
            decreases files.len() - i,
        {
            assert(fs.take(i + 1).drop_last() =~= fs.take(i as int));
            assert(fs[i as int] == files@[i as int]@);
            let keep = match path_extension(files[i].as_str()) {
                Some(e) => crate::text::str_eq(e.as_str(), "mm_profdata") || crate::text::str_eq(
                    e.as_str(),
                    "mm_profraw",
                ),
                None => false,
            };
            if keep {
                let ghost before = artifacts@;
                artifacts.push(files[i].clone());
                assert(crate::text::texts(artifacts@) =~= crate::text::texts(before).push(files@[i as int]@));
            }
            i += 1;
        }
        assert(fs.take(i as int) =~= fs);
        artifacts
    }
}

} // verus!
