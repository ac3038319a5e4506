//! What is known of the file system: the answers that it gave.
//!
//! A [`FileTree`] holds, for the paths that were asked about, what the file
//! system said of them. A path that was not asked about counts as one where
//! nothing exists. Two texts that name the same path, component by component,
//! have the same answer.

use vstd::prelude::*;

use crate::models::{Platform, Timestamp};
use crate::path;
use crate::text;

verus! {

/// What the file system says of one path. All but the two facts on links follow
/// symbolic links. What is a regular file does not count as a directory.
#[derive(Debug)]
pub struct FileFacts {
    /// Whether something is there.
    pub exists: bool,
    /// Whether it is a directory.
    pub is_dir: bool,
    /// Whether it is a regular file.
    pub is_file: bool,
    /// The text of the file, if it can be read.
    pub content: Option<String>,
    /// The paths of the entries of the directory, if it can be listed.
    pub children: Option<Vec<String>>,
    /// The path with every symbolic link resolved, if that is possible.
    pub canonical: Option<String>,
    /// Whether the path itself is a symbolic link.
    pub is_symlink: bool,
    /// What the path itself links to, if that can be read.
    pub link_target: Option<String>,
    /// When it was made, if the file system tells.
    pub created: Option<Timestamp>,
    /// When it last changed, if the file system tells.
    pub modified: Option<Timestamp>,
    /// Its size in bytes.
    pub size: u64,
}

/// The mathematical value of a [`FileFacts`].
#[verifier::ext_equal]
pub struct FileFactsView {
    pub exists: bool,
    pub is_dir: bool,
    pub is_file: bool,
    pub content: Option<Seq<char>>,
    pub children: Option<Seq<Seq<char>>>,
    pub canonical: Option<Seq<char>>,
    pub is_symlink: bool,
    pub link_target: Option<Seq<char>>,
    pub created: Option<Timestamp>,
    pub modified: Option<Timestamp>,
    pub size: u64,
}

impl View for FileFacts {
    type V = FileFactsView;

    open spec fn view(&self) -> FileFactsView {
        FileFactsView {
            exists: self.exists,
            is_dir: self.is_dir && !self.is_file,
            is_file: self.is_file,
            content: text::ostr(self.content),
            children: crate::outside::opt_strs(self.children),
            canonical: text::ostr(self.canonical),
            is_symlink: self.is_symlink,
            link_target: text::ostr(self.link_target),
            created: self.created,
            modified: self.modified,
            size: self.size,
        }
    }
}

impl Clone for FileFacts {
    fn clone(&self) -> (r: Self)
        ensures
            r@ == self@,
    {
        FileFacts {
            exists: self.exists,
            is_dir: self.is_dir,
            is_file: self.is_file,
            content: text::clone_opt(&self.content),
            children: match &self.children {
                Some(x) => Some(text::clone_strings(x)),
                None => None,
            },
            canonical: text::clone_opt(&self.canonical),
            is_symlink: self.is_symlink,
            link_target: text::clone_opt(&self.link_target),
            created: self.created,
            modified: self.modified,
            size: self.size,
        }
    }
}

/// What is said of a path where nothing exists.
pub open spec fn no_facts() -> FileFactsView {
    FileFactsView {
        exists: false,
        is_dir: false,
        is_file: false,
        content: None,
        children: None,
        canonical: None,
        is_symlink: false,
        link_target: None,
        created: None,
        modified: None,
        size: 0,
    }
}

/// The answers that the file system of a machine gave. Paths are written with `/`.
pub struct FileTree {
    platform: Platform,
    keys: Vec<String>,
    facts: Vec<FileFacts>,
    patterns: Vec<String>,
    resolved: Vec<Vec<String>>,
}

/// The mathematical value of a [`FileTree`].
#[verifier::ext_equal]
pub struct FileTreeView {
    /// The operating system, by which the commands in the files are read.
    pub platform: Platform,
    /// The paths that were asked about, in normal form, with the answers; of two
    /// answers for one path the later one counts.
    pub files: Seq<(Seq<char>, FileFactsView)>,
    /// The glob patterns that were resolved, with the paths that matched; of two
    /// answers for one pattern the later one counts.
    pub globs: Seq<(Seq<char>, Seq<Seq<char>>)>,
}

/// The last answer that stands under `key`.
pub open spec fn last_answer<A>(log: Seq<(Seq<char>, A)>, key: Seq<char>) -> Option<A>
    decreases log.len(),
{
    if log.len() == 0 {
        None
    } else if log.last().0 == key {
        Some(log.last().1)
    } else {
        last_answer(log.drop_last(), key)
    }
}

impl FileTreeView {
    /// What the file system says of a path.
    pub open spec fn at(self, p: Seq<char>) -> FileFactsView {
        match last_answer(self.files, path::normal_form(p)) {
            Some(f) => f,
            None => no_facts(),
        }
    }

    /// Whether the answers fit together: what can be read is there.
    pub open spec fn is_sound(self) -> bool {
        forall|p: Seq<char>| (#[trigger] self.at(p)).content is Some ==> self.at(p).exists
    }

    /// The paths that match a glob pattern.
    pub open spec fn matching(self, pattern: Seq<char>) -> Seq<Seq<char>> {
        match last_answer(self.globs, pattern) {
            Some(ps) => ps,
            None => Seq::<Seq<char>>::empty(),
        }
    }
}

impl View for FileTree {
    type V = FileTreeView;

    closed spec fn view(&self) -> FileTreeView {
        FileTreeView {
            platform: self.platform,
            files: Seq::new(
                self.keys@.len(),
                |i: int| (self.keys@[i]@, self.facts@[i]@),
            ),
            globs: Seq::new(
                self.patterns@.len(),
                |i: int| (self.patterns@[i]@, text::strs(self.resolved@[i]@)),
            ),
        }
    }
}

impl FileTree {
    #[verifier::type_invariant]
    spec fn aligned(self) -> bool {
        self.keys@.len() == self.facts@.len() && self.patterns@.len() == self.resolved@.len()
    }

    /// Knowing nothing of a machine that parts the components of paths by `/` alone.
    pub fn new() -> (r: FileTree)
        ensures
            r@.platform == Platform::Linux,
            r@.files == Seq::<(Seq<char>, FileFactsView)>::empty(),
            r@.globs == Seq::<(Seq<char>, Seq<Seq<char>>)>::empty(),
    {
        FileTree::on(Platform::Linux)
    }

    /// Knowing nothing of a machine but its operating system.
    pub fn on(platform: Platform) -> (r: FileTree)
        ensures
            r@.platform == platform,
            r@.files == Seq::<(Seq<char>, FileFactsView)>::empty(),
            r@.globs == Seq::<(Seq<char>, Seq<Seq<char>>)>::empty(),
    {
        FileTree {
            platform,
            keys: Vec::new(),
            facts: Vec::new(),
            patterns: Vec::new(),
            resolved: Vec::new(),
        }
    }

    /// The tree with one more answer on a path.
    pub fn with_path(self, p: &str, facts: FileFacts) -> (r: FileTree)
        ensures
            r@.platform == self@.platform,
            r@.files == self@.files.push((path::normal_form(p@), facts@)),
            r@.globs == self@.globs,
    {
        proof {
            use_type_invariant(&self);
        }
        let FileTree { platform, keys, facts: all, patterns, resolved } = self;
        let mut keys = keys;
        let mut all = all;
        keys.push(path::normalize(p));
        all.push(facts);
        let r = FileTree { platform, keys, facts: all, patterns, resolved };
        assert(r@.files =~= self@.files.push((path::normal_form(p@), facts@)));
        assert(r@.globs =~= self@.globs);
        r
    }

    /// The tree with one more answer on a glob pattern.
    pub fn with_pattern(self, pattern: &str, paths: Vec<String>) -> (r: FileTree)
        ensures
            r@.platform == self@.platform,
            r@.files == self@.files,
            r@.globs == self@.globs.push((pattern@, text::strs(paths@))),
    {
        proof {
            use_type_invariant(&self);
        }
        let FileTree { platform, keys, facts, patterns, resolved } = self;
        let mut patterns = patterns;
        let mut resolved = resolved;
        patterns.push(pattern.to_owned());
        resolved.push(paths);
        let r = FileTree { platform, keys, facts, patterns, resolved };
        assert(r@.files =~= self@.files);
        assert(r@.globs =~= self@.globs.push((pattern@, text::strs(paths@))));
        r
    }

    /// The operating system.
    pub fn platform(&self) -> (r: Platform)
        ensures
            r == self@.platform,
    {
        self.platform
    }

    /// What was said of a path, if it was asked about.
    pub fn get(&self, p: &str) -> (r: Option<&FileFacts>)
        ensures
            self@.at(p@) == (match r {
                Some(f) => f@,
                None => no_facts(),
            }),
    {
        proof {
            use_type_invariant(self);
        }
        let key = path::normalize(p);
        let ghost log = self@.files;
        let mut i: usize = self.keys.len();
        assert(log.take(i as int) =~= log);
        while i > 0
            invariant
                i <= self.keys@.len() == self.facts@.len(),
                log == self@.files,
                key@ == path::normal_form(p@),
                last_answer(log.take(i as int), key@) == last_answer(log, key@),
            decreases i,
        {
            assert(log.take(i as int).last() == log[i - 1]);
            assert(log.take(i as int).drop_last() =~= log.take(i - 1));
            if text::str_eq(&self.keys[i - 1], &key) {
                return Some(&self.facts[i - 1]);
            }
            i -= 1;
        }
        None
    }

    /// The paths that match a glob pattern.
    pub fn glob(&self, pattern: &str) -> (r: Vec<String>)
        ensures
            text::strs(r@) == self@.matching(pattern@),
    {
        proof {
            use_type_invariant(self);
        }
        let ghost log = self@.globs;
        let mut i: usize = self.patterns.len();
        assert(log.take(i as int) =~= log);
        while i > 0
            invariant
                i <= self.patterns@.len() == self.resolved@.len(),
                log == self@.globs,
                last_answer(log.take(i as int), pattern@) == last_answer(log, pattern@),
            decreases i,
        {
            assert(log.take(i as int).last() == log[i - 1]);
            assert(log.take(i as int).drop_last() =~= log.take(i - 1));
            if text::str_eq(&self.patterns[i - 1], pattern) {
                return text::clone_strings(&self.resolved[i - 1]);
            }
            i -= 1;
        }
        text::no_strings()
    }

    /// Whether something is at the path.
    pub fn has(&self, p: &str) -> (r: bool)
        ensures
            r == self@.at(p@).exists,
    {
        match self.get(p) {
            Some(f) => f.exists,
            None => false,
        }
    }

    /// Whether a directory is at the path.
    pub fn is_dir(&self, p: &str) -> (r: bool)
        ensures
            r == self@.at(p@).is_dir,
    {
        match self.get(p) {
            Some(f) => f.is_dir && !f.is_file,
            None => false,
        }
    }

    /// Whether a regular file is at the path.
    pub fn is_file(&self, p: &str) -> (r: bool)
        ensures
            r == self@.at(p@).is_file,
    {
        match self.get(p) {
            Some(f) => f.is_file,
            None => false,
        }
    }

    /// The text of the file at the path, if it can be read.
    pub fn read(&self, p: &str) -> (r: Option<String>)
        ensures
            text::ostr(r) == self@.at(p@).content,
    {
        match self.get(p) {
            Some(f) => text::clone_opt(&f.content),
            None => None,
        }
    }

    /// The paths of the entries of the directory, if it can be listed.
    pub fn list(&self, p: &str) -> (r: Option<Vec<String>>)
        ensures
            crate::outside::opt_strs(r) == self@.at(p@).children,
    {
        match self.get(p) {
            Some(f) => match &f.children {
                Some(c) => Some(text::clone_strings(c)),
                None => None,
            },
            None => None,
        }
    }

    /// The path with every symbolic link resolved, if that is possible.
    pub fn canonicalize(&self, p: &str) -> (r: Option<String>)
        ensures
            text::ostr(r) == self@.at(p@).canonical,
    {
        match self.get(p) {
            Some(f) => text::clone_opt(&f.canonical),
            None => None,
        }
    }

    /// Whether the path itself is a symbolic link.
    pub fn is_symlink(&self, p: &str) -> (r: bool)
        ensures
            r == self@.at(p@).is_symlink,
    {
        match self.get(p) {
            Some(f) => f.is_symlink,
            None => false,
        }
    }

    /// What the path itself links to, if that can be read.
    pub fn read_link(&self, p: &str) -> (r: Option<String>)
        ensures
            text::ostr(r) == self@.at(p@).link_target,
    {
        match self.get(p) {
            Some(f) => text::clone_opt(&f.link_target),
            None => None,
        }
    }

    /// When the file was made: by its time of creation, or of its last change,
    /// or `now` where the file system tells neither.
    pub fn created_time(&self, p: &str, now: Timestamp) -> (r: Timestamp)
        ensures
            r == created_or(self@.at(p@), now),
    {
        match self.get(p) {
            Some(f) => if !f.exists {
                now
            } else {
                match f.created {
                    Some(t) => t,
                    None => match f.modified {
                        Some(t) => t,
                        None => now,
                    },
                }
            },
            None => now,
        }
    }

    /// When the file last changed, or `now` where the file system does not tell.
    pub fn modified_time(&self, p: &str, now: Timestamp) -> (r: Timestamp)
        ensures
            r == modified_or(self@.at(p@), now),
    {
        match self.get(p) {
            Some(f) => if !f.exists {
                now
            } else {
                match f.modified {
                    Some(t) => t,
                    None => now,
                }
            },
            None => now,
        }
    }
}

/// Nothing counts as a regular file and as a directory at once.
pub proof fn no_file_is_a_directory(fs: FileTree, p: Seq<char>)
    ensures
        !(fs@.at(p).is_file && fs@.at(p).is_dir),
{
    lemma_no_answer_says_both(fs@.files, path::normal_form(p));
}

proof fn lemma_no_answer_says_both(log: Seq<(Seq<char>, FileFactsView)>, key: Seq<char>)
    requires
        forall|i: int| 0 <= i < log.len() ==> !((#[trigger] log[i]).1.is_file && log[i].1.is_dir),
    ensures
        last_answer(log, key) matches Some(f) ==> !(f.is_file && f.is_dir),
    decreases log.len(),
{
    if log.len() > 0 && log.last().0 != key {
        lemma_no_answer_says_both(log.drop_last(), key);
    }
}

/// When a file was made: by its time of creation, or of its last change, or
/// `now` where the file system tells neither.
pub open spec fn created_or(f: FileFactsView, now: Timestamp) -> Timestamp {
    if !f.exists {
        now
    } else {
        match f.created {
            Some(t) => t,
            None => match f.modified {
                Some(t) => t,
                None => now,
            },
        }
    }
}

/// When a file last changed, or `now` where the file system does not tell.
pub open spec fn modified_or(f: FileFactsView, now: Timestamp) -> Timestamp {
    if !f.exists {
        now
    } else {
        match f.modified {
            Some(t) => t,
            None => now,
        }
    }
}

} // verus!
