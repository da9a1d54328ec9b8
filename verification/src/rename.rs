//! Renaming a torrent and its files: which names change, and to what.
//!
//! A torrent's display name is transformed as a whole. A file keeps its
//! extension: only the stem goes through the rules.

use crate::replacer::{replaced, CompoundReplacer};
use crate::split::{extension_of, rejoin, split_filename, stem_of};
use vstd::prelude::*;
use vstd::string::StringExecFns;

verus! {

/// A torrent as the listing gives it.
#[derive(Debug, Clone)]
pub struct TorrentInfo {
    pub hash: String,
    pub name: String,
}

/// A file of a torrent as the listing gives it.
#[derive(Debug, Clone)]
pub struct TorrentFile {
    pub name: String,
    pub index: u32,
}

/// A file that gets a new name.
#[derive(Debug, Clone)]
pub struct FileRename {
    pub old_path: String,
    pub new_path: String,
}

/// The name that the rules give a file: the stem is transformed, the
/// extension is kept as it is.
pub open spec fn renamed_file(
    patterns: Seq<Seq<char>>,
    replacements: Seq<Seq<char>>,
    name: Seq<char>,
) -> Seq<char> {
    rejoin(replaced(patterns, replacements, stem_of(name)), extension_of(name))
}

/// The renames among the first `upto` names: one for each name that the
/// rules change, in the order of the names.
pub open spec fn renames(
    patterns: Seq<Seq<char>>,
    replacements: Seq<Seq<char>>,
    names: Seq<Seq<char>>,
    upto: nat,
) -> Seq<(Seq<char>, Seq<char>)>
    decreases upto,
{
    if upto == 0 {
        Seq::empty()
    } else {
        let before = renames(patterns, replacements, names, (upto - 1) as nat);
        let old_name = names[upto - 1];
        let new_name = renamed_file(patterns, replacements, old_name);
        if new_name == old_name {
            before
        } else {
            before.push((old_name, new_name))
        }
    }
}

/// The names of a list of files.
pub open spec fn file_names(files: Seq<TorrentFile>) -> Seq<Seq<char>> {
    files.map_values(|f: TorrentFile| f.name@)
}

/// A list of renames as pairs of old and new name.
pub open spec fn rename_pairs(plan: Seq<FileRename>) -> Seq<(Seq<char>, Seq<char>)> {
    plan.map_values(|r: FileRename| (r.old_path@, r.new_path@))
}

/// The rules never reach the extension: the new name of a file that has an
/// extension is its transformed stem, a dot, and the extension as it was. A
/// name without an extension is transformed as a whole.
pub proof fn lemma_extension_is_kept(
    patterns: Seq<Seq<char>>,
    replacements: Seq<Seq<char>>,
    name: Seq<char>,
)
    ensures
        extension_of(name).len() > 0 ==> renamed_file(patterns, replacements, name)
            == replaced(patterns, replacements, stem_of(name)) + seq!['.'] + extension_of(name),
        extension_of(name).len() == 0 ==> renamed_file(patterns, replacements, name) == replaced(
            patterns,
            replacements,
            name,
        ),
{
    crate::split::lemma_split_point_is_dot(name);
}

/// Every planned rename changes a name: a file whose name the rules leave as
/// it is gets no entry, and there are at most as many entries as names.
pub proof fn lemma_renames_change_names(
    patterns: Seq<Seq<char>>,
    replacements: Seq<Seq<char>>,
    names: Seq<Seq<char>>,
    upto: nat,
)
    requires
        upto <= names.len(),
    ensures
        renames(patterns, replacements, names, upto).len() <= upto,
        forall|k: int|
            0 <= k < renames(patterns, replacements, names, upto).len() ==> {
                let planned = #[trigger] renames(patterns, replacements, names, upto)[k];
                &&& planned.0 != planned.1
                &&& planned.1 == renamed_file(patterns, replacements, planned.0)
                &&& names.contains(planned.0)
            },
    decreases upto,
{
    if upto > 0 {
        lemma_renames_change_names(patterns, replacements, names, (upto - 1) as nat);
        let before = renames(patterns, replacements, names, (upto - 1) as nat);
        let all = renames(patterns, replacements, names, upto);
        assert forall|k: int| 0 <= k < all.len() implies ({
            let planned = #[trigger] all[k];
            &&& planned.0 != planned.1
            &&& planned.1 == renamed_file(patterns, replacements, planned.0)
            &&& names.contains(planned.0)
        }) by {
            if k < before.len() {
                assert(all[k] == before[k]);
            } else {
                assert(all[k].0 == names[upto - 1]);
            }
        }
    }
}

/// Without rules no file is renamed.
pub proof fn lemma_no_rules_no_rename(name: Seq<char>)
    ensures
        renamed_file(Seq::empty(), Seq::empty(), name) == name,
{
    crate::replacer::lemma_zero_rules(stem_of(name));
    crate::split::lemma_rejoin(name);
}

/// Applies the rules to a file name without touching its extension.
pub fn apply_rename_rules_to_file(name: &str, compound_replacer: &CompoundReplacer) -> (out: String)
    ensures
        out@ == renamed_file(
            compound_replacer.patterns(),
            compound_replacer.replacements(),
            name@,
        ),
{
    let (stem, ext) = split_filename(name);
    let mut out = compound_replacer.replace(stem.as_str());
    if !ext.as_str().is_empty() {
        out.append(".");
        out.append(ext.as_str());
        proof {
            reveal_strlit(".");
            assert("."@ =~= seq!['.']);
        }
    }
    out
}

/// The new display name of a torrent, if the rules change it.
pub fn torrent_rename(torrent: &TorrentInfo, compound_replacer: &CompoundReplacer) -> (r: Option<
    String,
>)
    ensures
        ({
            let new_name = replaced(
                compound_replacer.patterns(),
                compound_replacer.replacements(),
                torrent.name@,
            );
            match r {
                Some(name) => name@ == new_name && new_name != torrent.name@,
                None => new_name == torrent.name@,
            }
        }),
{
    let new_name = compound_replacer.replace(torrent.name.as_str());
    if new_name == torrent.name {
        None
    } else {
        Some(new_name)
    }
}

/// The files that the rules rename, with their new names, in listing order.
/// A file whose name the rules leave as it is does not occur.
pub fn file_renames(files: &Vec<TorrentFile>, compound_replacer: &CompoundReplacer) -> (plan: Vec<
    FileRename,
>)
    ensures
        rename_pairs(plan@) == renames(
            compound_replacer.patterns(),
            compound_replacer.replacements(),
            file_names(files@),
            files@.len(),
        ),
{
    let ghost names = file_names(files@);
    let ghost pats = compound_replacer.patterns();
    let ghost reps = compound_replacer.replacements();
    let mut plan: Vec<FileRename> = Vec::new();
    let mut i: usize = 0;
    while i < files.len()
        invariant
            i <= files.len(),
            names == file_names(files@),
            pats == compound_replacer.patterns(),
            reps == compound_replacer.replacements(),
            rename_pairs(plan@) == renames(pats, reps, names, i as nat),
        decreases files.len() - i,
    {
        let file = &files[i];
        let new_name = apply_rename_rules_to_file(file.name.as_str(), compound_replacer);
        proof {
            assert(names[i as int] == file.name@);
        }
        if !(new_name == file.name) {
            let ghost before = rename_pairs(plan@);
            plan.push(FileRename { old_path: file.name.clone(), new_path: new_name });
            proof {
                assert(rename_pairs(plan@) =~= before.push((file.name@, new_name@)));
            }
        }
        i += 1;
    }
    plan
}

/// The torrent that a listing answers with: its first entry. An empty listing
/// means that there is no such torrent.
pub fn first_torrent(listing: Vec<TorrentInfo>) -> (r: Option<TorrentInfo>)
    ensures
        match r {
            Some(t) => listing@.len() > 0 && t == listing@[0],
            None => listing@.len() == 0,
        },
{
    let mut listing = listing;
    if listing.len() == 0 {
        None
    } else {
        Some(listing.swap_remove(0))
    }
}

} // verus!
