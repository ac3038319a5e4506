//! What is known of the files of a machine.

use vstd::prelude::*;

use crate::files;
use crate::files::FileTreeView;
use crate::path;

verus! {

/// What was said last of a path counts, and what is said of one path says nothing of
/// others.
pub proof fn last_answers_count<A>(
    log: Seq<(Seq<char>, A)>,
    key: Seq<char>,
    other: Seq<char>,
    answer: A,
)
    ensures
        files::last_answer(log.push((key, answer)), key) == Some(answer),
        other != key ==> files::last_answer(log.push((key, answer)), other) == files::last_answer(
            log,
            other,
        ),
        files::last_answer(Seq::<(Seq<char>, A)>::empty(), key) is None,
{
    assert(log.push((key, answer)).drop_last() =~= log);
}

/// It does not matter how a path is written; and nothing is at a path of which nothing
/// was said.
pub proof fn paths_are_known_however_written(fs: FileTreeView, p: Seq<char>, q: Seq<char>)
    ensures
        path::same_path(p, q) ==> fs.at(p) == fs.at(q),
        fs.files.len() == 0 ==> !fs.at(p).exists && !fs.at(p).is_dir && !fs.at(p).is_file && fs.at(
            p,
        ).content is None && fs.at(p).children is None && fs.at(p).canonical is None && !fs.at(
            p,
        ).is_symlink,
        fs.globs.len() == 0 ==> fs.matching(p).len() == 0,
{
}

} // verus!
