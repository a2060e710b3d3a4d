//! Which entries of a source folder are read, and under which names.

use vstd::prelude::*;

use crate::text::{contains_seq, contains_str, ends_with_seq, ends_with_str, replace_all, replace_str};

verus! {

/// A JavaScript source file: its name without the `.js` extension, its
/// content, and its path below the source folder, without the extension.
#[derive(Debug, Clone, PartialEq, Eq)]
pub struct File {
    pub name: String,
    pub content: String,
    pub relative_name: String,
}

impl Default for File {
    fn default() -> (res: Self)
        ensures
            res.name@ == Seq::<char>::empty(),
            res.content@ == Seq::<char>::empty(),
            res.relative_name@ == Seq::<char>::empty(),
    {
        File { name: String::new(), content: String::new(), relative_name: String::new() }
    }
}

/// `.js`
pub open spec fn js_extension() -> Seq<char> {
    seq!['.', 'j', 's']
}

/// `__test__`, the mark of folders and files that hold tests.
pub open spec fn test_mark() -> Seq<char> {
    seq!['_', '_', 't', 'e', 's', 't', '_', '_']
}

/// The name of a JavaScript file without its extension: every `.js` in it
/// is removed.
pub open spec fn js_stem(name: Seq<char>) -> Seq<char> {
    replace_all(name, js_extension(), Seq::empty())
}

/// `name` below the folder path `prefix` (`prefix/name`, or `name` at the top).
pub open spec fn join_relative(prefix: Seq<char>, name: Seq<char>) -> Seq<char> {
    if prefix.len() == 0 {
        name
    } else {
        prefix + seq!['/'] + name
    }
}

/// A name below a folder path keeps the whole path: for a non-empty `prefix`
/// the result is every character of `prefix`, then `/`, then every character
/// of `name`; at the top (empty `prefix`) it is `name` itself.
pub proof fn lemma_join_relative_keeps_the_path(prefix: Seq<char>, name: Seq<char>)
    ensures
        prefix.len() == 0 ==> join_relative(prefix, name) == name,
        prefix.len() > 0 ==> {
            let joined = join_relative(prefix, name);
            &&& joined.len() == prefix.len() + 1 + name.len()
            &&& joined.subrange(0, prefix.len() as int) == prefix
            &&& joined[prefix.len() as int] == '/'
            &&& joined.subrange(prefix.len() + 1int, joined.len() as int) == name
        },
{
    if prefix.len() > 0 {
        let joined = join_relative(prefix, name);
        assert(joined.subrange(0, prefix.len() as int) =~= prefix);
        assert(joined.subrange(prefix.len() + 1int, joined.len() as int) =~= name);
    }
}

/// Walking down folder by folder names an entry by its whole path: joining
/// `c` below `b` below `a` gives the same as joining `b/c` below `a`.
pub proof fn lemma_join_relative_nested(a: Seq<char>, b: Seq<char>, c: Seq<char>)
    requires
        b.len() > 0,
    ensures
        join_relative(join_relative(a, b), c) == join_relative(a, join_relative(b, c)),
{
    assert(a + seq!['/'] + b + seq!['/'] + c =~= a + seq!['/'] + (b + seq!['/'] + c));
}

/// What to do with one entry of a folder that is walked.
pub enum EntryAction {
    /// Leave the entry alone.
    Skip,
    /// Read the entry as the JavaScript file `name`, kept as `relative_name`.
    ReadJs { name: String, relative_name: String },
    /// Walk the entry as a sub-folder whose entries are kept below `prefix`.
    Descend { prefix: String },
}

/// `.js` as a string.
fn js_extension_string() -> (res: String)
    ensures
        res@ == js_extension(),
{
    let mut res = String::new();
    crate::text::push_char(&mut res, '.');
    crate::text::push_char(&mut res, 'j');
    crate::text::push_char(&mut res, 's');
    res
}

/// `__test__` as a string.
fn test_mark_string() -> (res: String)
    ensures
        res@ == test_mark(),
{
    let mut res = String::new();
    crate::text::push_char(&mut res, '_');
    crate::text::push_char(&mut res, '_');
    crate::text::push_char(&mut res, 't');
    crate::text::push_char(&mut res, 'e');
    crate::text::push_char(&mut res, 's');
    crate::text::push_char(&mut res, 't');
    crate::text::push_char(&mut res, '_');
    crate::text::push_char(&mut res, '_');
    res
}

/// `prefix/name`, or `name` when `prefix` is empty.
pub fn join_relative_name(prefix: &str, name: &str) -> (res: String)
    ensures
        res@ == join_relative(prefix@, name@),
{
    let mut res = prefix.to_owned();
    if prefix.unicode_len() > 0 {
        crate::text::push_char(&mut res, '/');
        res.append(name);
    } else {
        res.append(name);
        assert(res@ =~= name@);
    }
    res
}

/// `name` without every `.js` in it.
pub fn js_stem_of(name: &str) -> (res: String)
    ensures
        res@ == js_stem(name@),
{
    let ext = js_extension_string();
    let empty = String::new();
    replace_str(name, ext.as_str(), empty.as_str())
}

/// `res` is the decision for an entry `name` of a folder kept below `prefix`:
/// entries whose name holds `__test__` are skipped; a file is read when its
/// name ends in `.js`, and kept without the extension; a folder is walked
/// only when `deep` is asked for; anything else is skipped.
pub open spec fn is_entry_action(
    prefix: Seq<char>,
    name: Seq<char>,
    is_file: bool,
    is_dir: bool,
    deep: bool,
    res: EntryAction,
) -> bool {
    &&& contains_seq(name, test_mark()) ==> res is Skip
    &&& !contains_seq(name, test_mark()) && is_file ==> if ends_with_seq(name, js_extension()) {
        res matches EntryAction::ReadJs { name: n, relative_name: r } && n@ == js_stem(name)
            && r@ == join_relative(prefix, js_stem(name))
    } else {
        res is Skip
    }
    &&& !contains_seq(name, test_mark()) && !is_file && is_dir ==> if deep {
        res matches EntryAction::Descend { prefix: p } && p@ == join_relative(prefix, name)
    } else {
        res is Skip
    }
    &&& !is_file && !is_dir ==> res is Skip
}

/// The decision for an entry `name` of a folder whose entries are kept
/// below `prefix`: entries whose name holds `__test__` are skipped; a file is
/// read when its name ends in `.js`, and kept without the extension; a
/// folder is walked only when `deep` is asked for.
pub fn entry_action(prefix: &str, name: &str, is_file: bool, is_dir: bool, deep: bool) -> (res: EntryAction)
    ensures
        is_entry_action(prefix@, name@, is_file, is_dir, deep, res),
{
    let mark = test_mark_string();
    if contains_str(name, mark.as_str()) {
        return EntryAction::Skip;
    }
    if is_file {
        let ext = js_extension_string();
        if ends_with_str(name, ext.as_str()) {
            let stem = js_stem_of(name);
            let relative_name = join_relative_name(prefix, stem.as_str());
            EntryAction::ReadJs { name: stem, relative_name }
        } else {
            EntryAction::Skip
        }
    } else if is_dir {
        if deep {
            EntryAction::Descend { prefix: join_relative_name(prefix, name) }
        } else {
            EntryAction::Skip
        }
    } else {
        EntryAction::Skip
    }
}

/// The decision for a source path that is a single file named `name`: its
/// name without the extension when it ends in `.js`, else `None` (it is not
/// a JavaScript file).
pub fn root_file_stem(name: &str) -> (res: Option<String>)
    ensures
        match res {
            Some(stem) => ends_with_seq(name@, js_extension()) && stem@ == js_stem(name@),
            None => !ends_with_seq(name@, js_extension()),
        },
{
    let ext = js_extension_string();
    if ends_with_str(name, ext.as_str()) {
        Some(js_stem_of(name))
    } else {
        None
    }
}

/// The folder to record for a walked folder kept below `prefix`: every
/// walked folder but the top one, so that the output gets the same folders.
pub fn walked_dir_record(prefix: &str) -> (res: Option<String>)
    ensures
        match res {
            Some(dir) => prefix@.len() > 0 && dir@ == prefix@,
            None => prefix@.len() == 0,
        },
{
    if prefix.unicode_len() > 0 {
        Some(prefix.to_owned())
    } else {
        None
    }
}

/// One entry of a folder, as the file system lists it.
pub struct EntryInfo {
    pub name: String,
    pub is_file: bool,
    pub is_dir: bool,
}

/// The folders that `actions` ask to walk, in order.
pub open spec fn descended(actions: Seq<EntryAction>) -> Seq<Seq<char>>
    decreases actions.len(),
{
    if actions.len() == 0 {
        Seq::empty()
    } else {
        match actions.last() {
            EntryAction::Descend { prefix } => descended(actions.drop_last()).push(prefix@),
            _ => descended(actions.drop_last()),
        }
    }
}

/// `p` is the top of the walk, or one of the first `upto` recorded folders.
pub open spec fn walked_before(dirs: Seq<String>, upto: int, p: Seq<char>) -> bool {
    p.len() == 0 || exists|j: int| 0 <= j < upto && #[trigger] dirs[j]@ == p
}

/// `path` is an entry of the top of the walk or of one of the first `upto`
/// recorded folders.
pub open spec fn below_walked(dirs: Seq<String>, upto: int, path: Seq<char>) -> bool {
    exists|p: Seq<char>, n: Seq<char>| path == #[trigger] join_relative(p, n) && walked_before(dirs, upto, p)
}

/// The walk of a source folder: the folders recorded so far (each below the
/// top or below one recorded before it), the files read (each in the top or
/// in a recorded folder), and the folders found but not walked yet.
pub struct FolderWalk {
    pub deep: bool,
    pub started: bool,
    pub dirs: Vec<String>,
    pub contents: Vec<File>,
    pub to_walk: Vec<String>,
}

impl FolderWalk {
    /// What every walk keeps: without `deep` no folder is recorded or found;
    /// every recorded folder lies below the top or a folder recorded before
    /// it; every folder found lies below a walked one; every file read lies
    /// in the top or in a recorded folder.
    pub open spec fn wf(&self) -> bool {
        &&& !self.deep ==> self.dirs@.len() == 0 && self.to_walk@.len() == 0
        &&& forall|i: int| 0 <= i < self.dirs@.len() ==> below_walked(self.dirs@, i, #[trigger] self.dirs@[i]@)
        &&& forall|t: int| 0 <= t < self.to_walk@.len()
            ==> below_walked(self.dirs@, self.dirs@.len() as int, #[trigger] self.to_walk@[t]@)
        &&& forall|k: int| 0 <= k < self.contents@.len()
            ==> below_walked(self.dirs@, self.dirs@.len() as int, #[trigger] self.contents@[k].relative_name@)
    }

    /// A walk that has found nothing yet.
    pub fn new(deep: bool) -> (res: Self)
        ensures
            res.wf(),
            res.deep == deep,
            !res.started,
            res.dirs@.len() == 0,
            res.contents@.len() == 0,
            res.to_walk@.len() == 0,
    {
        FolderWalk { deep, started: false, dirs: Vec::new(), contents: Vec::new(), to_walk: Vec::new() }
    }

    /// Walks the folder kept below `prefix` (the top, `""`, first; then only
    /// folders that the walk found), with its `entries`: records the folder
    /// unless it is the top, and hands back the decision for each entry; the
    /// folders to walk are remembered.
    pub fn visit_dir(&mut self, prefix: &str, entries: &Vec<EntryInfo>) -> (actions: Vec<EntryAction>)
        requires
            old(self).wf(),
            (!old(self).started && prefix@.len() == 0) || exists|t: int|
                0 <= t < old(self).to_walk@.len() && #[trigger] old(self).to_walk@[t]@ == prefix@,
        ensures
            final(self).wf(),
            final(self).started,
            final(self).deep == old(self).deep,
            final(self).contents == old(self).contents,
            final(self).dirs@.map_values(|d: String| d@) == if prefix@.len() == 0 {
                old(self).dirs@.map_values(|d: String| d@)
            } else {
                old(self).dirs@.map_values(|d: String| d@).push(prefix@)
            },
            final(self).to_walk@.map_values(|d: String| d@) == old(self).to_walk@.map_values(
                |d: String| d@,
            ) + descended(actions@),
            actions@.len() == entries@.len(),
            forall|i: int| 0 <= i < entries@.len() ==> is_entry_action(
                prefix@,
                entries@[i].name@,
                entries@[i].is_file,
                entries@[i].is_dir,
                old(self).deep,
                #[trigger] actions@[i],
            ),
    {
        let ghost old_dirs = self.dirs@;
        proof {
            if prefix@.len() > 0 {
                let t = choose|t: int| 0 <= t < self.to_walk@.len() && #[trigger] self.to_walk@[t]@ == prefix@;
                assert(below_walked(self.dirs@, self.dirs@.len() as int, self.to_walk@[t]@));
            }
        }
        self.started = true;
        if let Some(dir) = walked_dir_record(prefix) {
            self.dirs.push(dir);
            proof {
                lemma_walked_grows(old_dirs, self.dirs@);
            }
        }
        assert(self.dirs@.map_values(|d: String| d@) =~= if prefix@.len() == 0 {
            old_dirs.map_values(|d: String| d@)
        } else {
            old_dirs.map_values(|d: String| d@).push(prefix@)
        });
        assert(walked_before(self.dirs@, self.dirs@.len() as int, prefix@)) by {
            if prefix@.len() > 0 {
                assert(self.dirs@[old_dirs.len() as int]@ == prefix@);
            }
        }
        let ghost start_walk = self.to_walk@.map_values(|d: String| d@);
        let mut actions: Vec<EntryAction> = Vec::new();
        let mut i: usize = 0;
        while i < entries.len()
            invariant
                i <= entries@.len(),
                self.started,
                self.deep == old(self).deep,
                self.contents == old(self).contents,
                !self.deep ==> self.dirs@.len() == 0 && self.to_walk@.len() == 0,
                forall|d: int| 0 <= d < self.dirs@.len() ==> below_walked(self.dirs@, d, #[trigger] self.dirs@[d]@),
                forall|t: int| 0 <= t < self.to_walk@.len()
                    ==> below_walked(self.dirs@, self.dirs@.len() as int, #[trigger] self.to_walk@[t]@),
                forall|k: int| 0 <= k < self.contents@.len()
                    ==> below_walked(self.dirs@, self.dirs@.len() as int, #[trigger] self.contents@[k].relative_name@),
                walked_before(self.dirs@, self.dirs@.len() as int, prefix@),
                self.dirs@.map_values(|d: String| d@) == if prefix@.len() == 0 {
                    old_dirs.map_values(|d: String| d@)
                } else {
                    old_dirs.map_values(|d: String| d@).push(prefix@)
                },
                self.to_walk@.map_values(|d: String| d@) == start_walk + descended(actions@),
                actions@.len() == i,
                forall|k: int| 0 <= k < i ==> is_entry_action(
                    prefix@,
                    entries@[k].name@,
                    entries@[k].is_file,
                    entries@[k].is_dir,
                    old(self).deep,
                    #[trigger] actions@[k],
                ),
            decreases entries@.len() - i,
        {
            let e = &entries[i];
            let action = entry_action(prefix, e.name.as_str(), e.is_file, e.is_dir, self.deep);
            let ghost before_walk = self.to_walk@.map_values(|d: String| d@);
            let ghost before_actions = actions@;
            let ghost a = action;
            match &action {
                EntryAction::Descend { prefix: sub } => {
                    self.to_walk.push(sub.clone());
                    assert(below_walked(self.dirs@, self.dirs@.len() as int, sub@)) by {
                        assert(sub@ == join_relative(prefix@, e.name@));
                    }
                    assert(self.to_walk@.map_values(|d: String| d@) =~= before_walk.push(sub@));
                },
                _ => {},
            }
            actions.push(action);
            assert(actions@.drop_last() =~= before_actions);
            assert(actions@.last() == a);
            assert(self.to_walk@.map_values(|d: String| d@) =~= start_walk + descended(actions@)) by {
                match a {
                    EntryAction::Descend { prefix: sub } => {
                        assert(descended(actions@) == descended(before_actions).push(sub@));
                    },
                    _ => {
                        assert(descended(actions@) == descended(before_actions));
                    },
                }
            }
            i = i + 1;
        }
        actions
    }

    /// Records the JavaScript file `name` read from the folder kept below
    /// `folder` (the top, `""`, or a recorded folder), with its content; it
    /// is kept as `folder/name`.
    pub fn add_file(&mut self, folder: &str, name: String, content: String)
        requires
            old(self).wf(),
            walked_before(old(self).dirs@, old(self).dirs@.len() as int, folder@),
        ensures
            final(self).wf(),
            final(self).deep == old(self).deep,
            final(self).started == old(self).started,
            final(self).dirs == old(self).dirs,
            final(self).to_walk == old(self).to_walk,
            final(self).contents@.len() == old(self).contents@.len() + 1,
            forall|k: int| 0 <= k < old(self).contents@.len() ==> final(self).contents@[k] == old(self).contents@[k],
            final(self).contents@.last().name@ == name@,
            final(self).contents@.last().content@ == content@,
            final(self).contents@.last().relative_name@ == join_relative(folder@, name@),
    {
        let relative_name = join_relative_name(folder, name.as_str());
        let ghost rel = relative_name@;
        self.contents.push(File { name, content, relative_name });
        assert(below_walked(self.dirs@, self.dirs@.len() as int, rel));
    }
}

/// Recording one more folder keeps every earlier fact of the walk.
proof fn lemma_walked_grows(old_dirs: Seq<String>, dirs: Seq<String>)
    requires
        dirs.len() == old_dirs.len() + 1,
        forall|j: int| 0 <= j < old_dirs.len() ==> dirs[j] == old_dirs[j],
    ensures
        forall|upto: int, path: Seq<char>| 0 <= upto <= old_dirs.len() && below_walked(old_dirs, upto, path)
            ==> below_walked(dirs, upto, path),
        forall|path: Seq<char>| below_walked(old_dirs, old_dirs.len() as int, path)
            ==> below_walked(dirs, dirs.len() as int, path),
{
    assert forall|upto: int, path: Seq<char>| 0 <= upto <= old_dirs.len() && below_walked(old_dirs, upto, path)
        implies below_walked(dirs, upto, path) by {
        let (p, n) = choose|p: Seq<char>, n: Seq<char>| path == #[trigger] join_relative(p, n) && walked_before(old_dirs, upto, p);
        if p.len() > 0 {
            let j = choose|j: int| 0 <= j < upto && #[trigger] old_dirs[j]@ == p;
            assert(dirs[j]@ == p);
        }
    }
    assert forall|path: Seq<char>| below_walked(old_dirs, old_dirs.len() as int, path)
        implies below_walked(dirs, dirs.len() as int, path) by {
        let (p, n) = choose|p: Seq<char>, n: Seq<char>| path == #[trigger] join_relative(p, n) && walked_before(old_dirs, old_dirs.len() as int, p);
        if p.len() > 0 {
            let j = choose|j: int| 0 <= j < old_dirs.len() && #[trigger] old_dirs[j]@ == p;
            assert(dirs[j]@ == p);
        }
    }
}

} // verus!
