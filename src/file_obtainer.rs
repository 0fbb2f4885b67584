//! Discovery of the files under a root directory, breadth first.
//!
//! The walk is a state machine: it asks for the listing of one directory at a
//! time, and whoever drives it reads that directory and hands the entries back.
//! Filter: the configured endings form a rejection set. A file is found unless
//! its extension matches one of them; an ending matches the extension written
//! with or without its leading dot (`rs` and `.rs` both match `main.rs`). A
//! file without an extension matches no ending and is always found.
use vstd::prelude::*;
use crate::offset_calculator::chars_of;

verus! {

/// What a discovery run starts from and filters with. Immutable once built.
pub struct Configuration {
    root_dir: String,
    file_endings: Vec<String>,
}

/// The value of a `Configuration`.
pub struct ConfigurationView {
    pub root_dir: Seq<char>,
    pub file_endings: Seq<Seq<char>>,
}

impl View for Configuration {
    type V = ConfigurationView;

    closed spec fn view(&self) -> ConfigurationView {
        ConfigurationView { root_dir: self.root_dir@, file_endings: self.file_endings.deep_view() }
    }
}

impl Configuration {
    fn new(root_dir: String, file_endings: Vec<String>) -> (r: Configuration)
        ensures
            r@.root_dir == root_dir@,
            r@.file_endings == file_endings.deep_view(),
    {
        Configuration { root_dir, file_endings }
    }

    /// The directory that discovery starts from.
    pub fn root_dir(&self) -> (r: &String)
        ensures
            r@ == self@.root_dir,
    {
        &self.root_dir
    }

    /// The endings whose files discovery leaves out.
    pub fn file_endings(&self) -> (r: &Vec<String>)
        ensures
            r.deep_view() == self@.file_endings,
    {
        &self.file_endings
    }
}

/// Builds a `Configuration`; the endings default to none.
pub struct ConfigurationBuilder {
    root_dir: String,
    file_endings: Option<Vec<String>>,
}

/// The value of a `ConfigurationBuilder`.
pub struct ConfigurationBuilderView {
    pub root_dir: Seq<char>,
    pub file_endings: Option<Seq<Seq<char>>>,
}

impl View for ConfigurationBuilder {
    type V = ConfigurationBuilderView;

    closed spec fn view(&self) -> ConfigurationBuilderView {
        ConfigurationBuilderView {
            root_dir: self.root_dir@,
            file_endings: match self.file_endings {
                Some(v) => Some(v.deep_view()),
                None => None,
            },
        }
    }
}

impl ConfigurationBuilder {
    pub fn new(root_dir: String) -> (r: Self)
        ensures
            r@.root_dir == root_dir@,
            r@.file_endings is None,
    {
        ConfigurationBuilder { root_dir: root_dir, file_endings: None }
    }

    pub fn add_file_endings(self, file_endings: Vec<String>) -> (r: Self)
        ensures
            r@.root_dir == self@.root_dir,
            r@.file_endings == Some(file_endings.deep_view()),
    {
        ConfigurationBuilder { root_dir: self.root_dir, file_endings: Some(file_endings) }
    }

    pub fn build(self) -> (r: Configuration)
        ensures
            r@.root_dir == self@.root_dir,
            r@.file_endings == match self@.file_endings {
                Some(e) => e,
                None => Seq::empty(),
            },
    {
        let endings = match self.file_endings {
            Some(e) => e,
            None => {
                let e: Vec<String> = Vec::new();
                assert(e.deep_view() =~= Seq::<Seq<char>>::empty());
                e
            },
        };
        Configuration::new(self.root_dir, endings)
    }
}

/// Index of the last `.` in a file name, or -1 where there is none.
pub open spec fn last_dot(name: Seq<char>) -> int
    decreases name.len(),
{
    if name.len() == 0 {
        -1
    } else if name.last() == '.' {
        name.len() - 1
    } else {
        last_dot(name.drop_last())
    }
}

/// The extension of a file name: what follows its last `.`. A name without a
/// `.`, or whose only `.` is its first character, has none.
pub open spec fn extension_of(name: Seq<char>) -> Option<Seq<char>> {
    if last_dot(name) > 0 {
        Some(name.skip(last_dot(name) + 1))
    } else {
        None
    }
}

/// An ending names an extension, with or without its leading dot.
pub open spec fn ending_matches(ending: Seq<char>, ext: Seq<char>) -> bool {
    ending == ext || ending == seq!['.'] + ext
}

/// One of the endings names the extension.
pub open spec fn rejected(endings: Seq<Seq<char>>, ext: Seq<char>) -> bool {
    exists|i: int| 0 <= i < endings.len() && ending_matches(#[trigger] endings[i], ext)
}

/// A file of this name is found under these endings.
pub open spec fn is_accepted(endings: Seq<Seq<char>>, name: Seq<char>) -> bool {
    match extension_of(name) {
        Some(ext) => !rejected(endings, ext),
        None => true,
    }
}

proof fn lemma_last_dot_prefix(name: Seq<char>, i: int)
    requires
        0 <= i <= name.len(),
        forall|j: int| i <= j < name.len() ==> name[j] != '.',
    ensures
        last_dot(name) == last_dot(name.take(i)),
        -1 <= last_dot(name) < i,
        last_dot(name) >= 0 ==> name[last_dot(name)] == '.',
    decreases name.len(),
{
    if name.len() == i {
        assert(name.take(i) =~= name);
        lemma_last_dot_range(name);
    } else {
        lemma_last_dot_prefix(name.drop_last(), i);
        assert(name.drop_last().take(i) =~= name.take(i));
    }
}

proof fn lemma_last_dot_range(name: Seq<char>)
    ensures
        -1 <= last_dot(name) < name.len(),
        last_dot(name) >= 0 ==> name[last_dot(name)] == '.',
    decreases name.len(),
{
    if name.len() > 0 && name.last() != '.' {
        lemma_last_dot_range(name.drop_last());
    }
}

/// `a` from position `start` on holds exactly `b`.
fn matches_from(a: &Vec<char>, start: usize, b: &Vec<char>) -> (r: bool)
    requires
        start <= a@.len(),
    ensures
        r == (a@.skip(start as int) == b@),
{
    if a.len() - start != b.len() {
        proof {
            assert(a@.skip(start as int).len() != b@.len());
        }
        return false;
    }
    let mut i: usize = 0;
    while i < b.len()
        invariant
            start <= a@.len(),
            start + b@.len() == a@.len(),
            a@.len() == a.len(),
            i <= b@.len(),
            forall|j: int| 0 <= j < i ==> a@[start + j] == b@[j],
        decreases b@.len() - i,
    {
        if a[start + i] != b[i] {
            proof {
                assert(a@.skip(start as int)[i as int] != b@[i as int]);
            }
            return false;
        }
        i = i + 1;
    }
    proof {
        assert(a@.skip(start as int) =~= b@);
    }
    true
}

/// The extension of a file name, as `extension_of` gives it.
fn extension(name: &str) -> (r: Option<Vec<char>>)
    ensures
        match r {
            Some(e) => extension_of(name@) == Some(e@),
            None => extension_of(name@) is None,
        },
{
    let cs = chars_of(name);
    let mut i: usize = cs.len();
    while i > 0 && cs[i - 1] != '.'
        invariant
            i <= cs@.len(),
            cs@ == name@,
            forall|j: int| i <= j < cs@.len() ==> cs@[j] != '.',
        decreases i,
    {
        i = i - 1;
    }
    proof {
        lemma_last_dot_prefix(cs@, i as int);
        if i > 0 {
            let t = cs@.take(i as int);
            assert(t.last() == '.');
            assert(last_dot(t) == i - 1);
        } else {
            assert(cs@.take(0) =~= Seq::<char>::empty());
        }
    }
    if i <= 1 {
        return None;
    }
    let mut ext: Vec<char> = Vec::new();
    let mut k: usize = i;
    while k < cs.len()
        invariant
            i <= k <= cs@.len(),
            ext@ == cs@.subrange(i as int, k as int),
        decreases cs@.len() - k,
    {
        ext.push(cs[k]);
        k = k + 1;
        proof {
            assert(ext@ =~= cs@.subrange(i as int, k as int));
        }
    }
    proof {
        assert(ext@ =~= cs@.skip(i as int));
    }
    Some(ext)
}

/// Whether discovery keeps a file of this name under these endings.
pub fn is_accepted_name(endings: &Vec<String>, name: &str) -> (r: bool)
    ensures
        r == is_accepted(endings.deep_view(), name@),
{
    let ext = match extension(name) {
        Some(e) => e,
        None => {
            return true;
        },
    };
    let mut i: usize = 0;
    while i < endings.len()
        invariant
            i <= endings@.len(),
            extension_of(name@) == Some(ext@),
            forall|j: int| 0 <= j < i ==> !ending_matches(#[trigger] endings.deep_view()[j], ext@),
        decreases endings@.len() - i,
    {
        let e = chars_of(endings[i].as_str());
        let bare = matches_from(&e, 0, &ext);
        let dotted = e.len() > 0 && e[0] == '.' && matches_from(&e, 1, &ext);
        proof {
            assert(endings.deep_view()[i as int] == e@);
            assert(e@.skip(0) =~= e@);
            if e@.len() > 0 && e@[0] == '.' {
                assert(e@ =~= seq!['.'] + e@.skip(1));
            }
            if e@ == seq!['.'] + ext@ {
                assert(e@.skip(1) =~= ext@);
            }
        }
        if bare || dotted {
            return false;
        }
        i = i + 1;
    }
    true
}

/// One entry of a directory listing: its full path, its file name, and
/// whether it is a directory.
pub struct Entry {
    pub path: String,
    pub name: String,
    pub is_dir: bool,
}

/// The value of an `Entry`.
pub struct EntryView {
    pub path: Seq<char>,
    pub name: Seq<char>,
    pub is_dir: bool,
}

impl View for Entry {
    type V = EntryView;

    open spec fn view(&self) -> EntryView {
        EntryView { path: self.path@, name: self.name@, is_dir: self.is_dir }
    }
}

pub open spec fn entry_views(entries: Seq<Entry>) -> Seq<EntryView> {
    entries.map_values(|e: Entry| e@)
}

/// The paths of the files among `entries` that the endings keep, in order.
pub open spec fn found_files(endings: Seq<Seq<char>>, entries: Seq<EntryView>) -> Seq<Seq<char>>
    decreases entries.len(),
{
    if entries.len() == 0 {
        seq![]
    } else {
        let prev = found_files(endings, entries.drop_last());
        let e = entries.last();
        if !e.is_dir && is_accepted(endings, e.name) {
            prev.push(e.path)
        } else {
            prev
        }
    }
}

/// The paths of the directories among `entries`, in order.
pub open spec fn directories(entries: Seq<EntryView>) -> Seq<Seq<char>>
    decreases entries.len(),
{
    if entries.len() == 0 {
        seq![]
    } else {
        let prev = directories(entries.drop_last());
        if entries.last().is_dir {
            prev.push(entries.last().path)
        } else {
            prev
        }
    }
}

/// Why discovery stopped.
#[derive(Debug, PartialEq, Eq)]
pub enum DiscoveryError {
    /// The root directory could not be listed (it is missing or unreadable).
    RootUnreadable(String),
    /// A directory below the root could not be listed.
    DirectoryUnreadable(String),
}

/// What the walk asks for next.
#[derive(Debug, PartialEq, Eq)]
pub enum Step {
    /// List this directory and hand its entries to `on_listing`.
    List(String),
    /// Discovery is complete: the paths found, in the order met.
    Done(Vec<String>),
    /// Discovery failed; nothing was found.
    Failed(DiscoveryError),
}

/// A breadth-first walk of a directory tree. The queue holds every entry
/// handed in, in order; each listing is appended at its end, so the entries of
/// a directory are visited after everything that was queued before them.
pub struct Walk {
    file_endings: Vec<String>,
    root_dir: String,
    queue: Vec<Entry>,
    index: usize,
    files: Vec<String>,
    awaiting: Option<String>,
    listed: Ghost<Seq<Seq<char>>>,
}

/// The value of a `Walk`: the entries queued, how many were visited, the
/// paths found so far, the directory whose listing is awaited, and every
/// directory asked for, the root first.
pub struct WalkView {
    pub file_endings: Seq<Seq<char>>,
    pub root_dir: Seq<char>,
    pub queue: Seq<EntryView>,
    pub index: nat,
    pub files: Seq<Seq<char>>,
    pub awaiting: Option<Seq<char>>,
    pub listed: Seq<Seq<char>>,
}

impl View for Walk {
    type V = WalkView;

    closed spec fn view(&self) -> WalkView {
        WalkView {
            file_endings: self.file_endings.deep_view(),
            root_dir: self.root_dir@,
            queue: entry_views(self.queue@),
            index: self.index as nat,
            files: self.files.deep_view(),
            awaiting: match self.awaiting {
                Some(p) => Some(p@),
                None => None,
            },
            listed: self.listed@,
        }
    }
}

/// A copy of a list of strings.
fn copy_strings(v: &Vec<String>) -> (r: Vec<String>)
    ensures
        r.deep_view() == v.deep_view(),
{
    let mut out: Vec<String> = Vec::new();
    let mut i: usize = 0;
    while i < v.len()
        invariant
            i <= v@.len(),
            out.deep_view() =~= v.deep_view().take(i as int),
        decreases v@.len() - i,
    {
        let ghost before = out.deep_view();
        out.push(v[i].clone());
        proof {
            assert(out.deep_view() =~= before.push(v.deep_view()[i as int]));
        }
        i = i + 1;
    }
    assert(v.deep_view().take(v@.len() as int) =~= v.deep_view());
    out
}

impl Walk {
    /// The visited entries are the first `index` of the queue; the paths found
    /// are the accepted files among them; the directories among them were
    /// each asked for, after the root; an awaited listing is that of the last
    /// directory asked for.
    pub open spec fn wf(&self) -> bool {
        let v = self@;
        &&& v.index <= v.queue.len()
        &&& v.files == found_files(v.file_endings, v.queue.take(v.index as int))
        &&& v.listed == seq![v.root_dir] + directories(v.queue.take(v.index as int))
        &&& v.awaiting is Some ==> v.awaiting == Some(v.listed.last())
    }

    /// A walk that waits for the listing of the root directory.
    pub fn new(config: Configuration) -> (r: Walk)
        ensures
            r.wf(),
            r@.root_dir == config@.root_dir,
            r@.file_endings == config@.file_endings,
            r@.queue == Seq::<EntryView>::empty(),
            r@.index == 0,
            r@.awaiting == Some(config@.root_dir),
    {
        let Configuration { root_dir, file_endings } = config;
        let awaited = root_dir.clone();
        let ghost first = seq![awaited@];
        let r = Walk {
            file_endings,
            root_dir,
            queue: Vec::new(),
            index: 0,
            files: Vec::new(),
            awaiting: Some(awaited),
            listed: Ghost(first),
        };
        proof {
            assert(r@.queue.take(0) =~= Seq::<EntryView>::empty());
            assert(r@.files =~= Seq::<Seq<char>>::empty());
            assert(r@.listed =~= seq![r@.root_dir] + directories(r@.queue.take(0)));
        }
        r
    }

    /// The directory whose listing the walk waits for, if any.
    pub fn pending(&self) -> (r: Option<&String>)
        ensures
            match r {
                Some(p) => self@.awaiting == Some(p@),
                None => self@.awaiting is None,
            },
    {
        self.awaiting.as_ref()
    }

    /// Takes the listing of the awaited directory (`None`: it could not be
    /// read), queues its entries, and visits the queue up to the next
    /// directory, which it asks for; with none left, discovery is done. A
    /// listing that could not be read fails the whole walk.
    pub fn on_listing(&mut self, listing: Option<Vec<Entry>>) -> (r: Step)
        requires
            old(self).wf(),
            old(self)@.awaiting is Some,
        ensures
            final(self).wf(),
            final(self)@.file_endings == old(self)@.file_endings,
            final(self)@.root_dir == old(self)@.root_dir,
            listing is None ==> {
                &&& final(self)@.queue == old(self)@.queue
                &&& final(self)@.awaiting is None
                &&& if old(self)@.index == 0 {
                    r matches Step::Failed(DiscoveryError::RootUnreadable(p)) && p@
                        == old(self)@.root_dir
                } else {
                    r matches Step::Failed(DiscoveryError::DirectoryUnreadable(p)) && Some(p@)
                        == old(self)@.awaiting
                }
            },
            listing matches Some(l) ==> {
                &&& final(self)@.queue == old(self)@.queue + entry_views(l@)
                &&& old(self)@.index <= final(self)@.index
                &&& match r {
                    Step::List(p) => {
                        &&& old(self)@.index < final(self)@.index
                        &&& final(self)@.queue[final(self)@.index - 1].is_dir
                        &&& p@ == final(self)@.queue[final(self)@.index - 1].path
                        &&& final(self)@.awaiting == Some(p@)
                        &&& forall|i: int|
                            old(self)@.index <= i < final(self)@.index - 1
                                ==> !(#[trigger] final(self)@.queue[i]).is_dir
                    },
                    Step::Done(v) => {
                        &&& final(self)@.index == final(self)@.queue.len()
                        &&& v.deep_view() == final(self)@.files
                        &&& final(self)@.awaiting is None
                        &&& forall|i: int|
                            old(self)@.index <= i < final(self)@.queue.len()
                                ==> !(#[trigger] final(self)@.queue[i]).is_dir
                    },
                    Step::Failed(_) => false,
                }
            },
    {
        let ghost pre = self@;
        let dir = self.awaiting.take().unwrap();
        let mut entries = match listing {
            None => {
                if self.index == 0 {
                    return Step::Failed(DiscoveryError::RootUnreadable(dir));
                } else {
                    return Step::Failed(DiscoveryError::DirectoryUnreadable(dir));
                }
            },
            Some(l) => l,
        };
        let ghost added = entries@;
        self.queue.append(&mut entries);
        proof {
            assert(self@.queue =~= pre.queue + entry_views(added));
            assert(self@.queue.take(pre.index as int) =~= pre.queue.take(pre.index as int));
        }
        while self.index < self.queue.len()
            invariant
                pre == old(self)@,
                listing matches Some(l) && l@ == added,
                self@.file_endings == pre.file_endings,
                self@.root_dir == pre.root_dir,
                self@.queue == pre.queue + entry_views(added),
                pre.index <= self@.index <= self@.queue.len(),
                self@.files == found_files(self@.file_endings, self@.queue.take(self@.index as int)),
                self@.listed == seq![self@.root_dir] + directories(
                    self@.queue.take(self@.index as int),
                ),
                self@.awaiting is None,
                forall|i: int| pre.index <= i < self@.index ==> !(#[trigger] self@.queue[i]).is_dir,
            decreases self@.queue.len() - self@.index,
        {
            let i = self.index;
            let ghost q = self@.queue;
            proof {
                assert(q.take(i + 1).drop_last() =~= q.take(i as int));
                assert(q[i as int] == self.queue@[i as int]@);
            }
            if self.queue[i].is_dir {
                let p = self.queue[i].path.clone();
                self.index = i + 1;
                let ghost grown = self.listed@.push(p@);
                self.listed = Ghost(grown);
                self.awaiting = Some(p.clone());
                return Step::List(p);
            }
            let ghost before = self.files.deep_view();
            if is_accepted_name(&self.file_endings, self.queue[i].name.as_str()) {
                self.files.push(self.queue[i].path.clone());
                proof {
                    assert(self.files.deep_view() =~= before.push(q[i as int].path));
                }
            }
            self.index = i + 1;
        }
        Step::Done(copy_strings(&self.files))
    }
}

/// The entry at `i` is a file that the endings keep.
pub open spec fn kept_at(endings: Seq<Seq<char>>, entries: Seq<EntryView>, i: int) -> bool {
    0 <= i < entries.len() && !entries[i].is_dir && is_accepted(endings, entries[i].name)
}

proof fn lemma_found_files_members(
    endings: Seq<Seq<char>>,
    entries: Seq<EntryView>,
    p: Seq<char>,
)
    ensures
        found_files(endings, entries).contains(p) <==> exists|i: int|
            #[trigger] kept_at(endings, entries, i) && entries[i].path == p,
    decreases entries.len(),
{
    if entries.len() > 0 {
        let init = entries.drop_last();
        let last = entries.len() - 1;
        lemma_found_files_members(endings, init, p);
        if found_files(endings, entries).contains(p) {
            if found_files(endings, init).contains(p) {
                let i = choose|i: int| #[trigger] kept_at(endings, init, i) && init[i].path == p;
                assert(kept_at(endings, entries, i));
            } else {
                assert(kept_at(endings, entries, last));
            }
        }
        if exists|i: int| #[trigger] kept_at(endings, entries, i) && entries[i].path == p {
            let i = choose|i: int| #[trigger] kept_at(endings, entries, i) && entries[i].path == p;
            if i < last {
                assert(kept_at(endings, init, i));
                assert(found_files(endings, init).contains(p));
                let prev = found_files(endings, init);
                let k = choose|k: int| 0 <= k < prev.len() && prev[k] == p;
                assert(found_files(endings, entries)[k] == p);
            } else {
                assert(found_files(endings, entries).last() == p);
            }
        }
    }
}

proof fn lemma_directories_members(entries: Seq<EntryView>, i: int)
    requires
        0 <= i < entries.len(),
        entries[i].is_dir,
    ensures
        directories(entries).contains(entries[i].path),
    decreases entries.len(),
{
    let init = entries.drop_last();
    if i < entries.len() - 1 {
        lemma_directories_members(init, i);
        let prev = directories(init);
        let k = choose|k: int| 0 <= k < prev.len() && prev[k] == entries[i].path;
        assert(directories(entries)[k] == entries[i].path);
    } else {
        assert(directories(entries).last() == entries[i].path);
    }
}

/// Discovery is exact and reaches every depth: once every queued entry has
/// been visited, a path is found if and only if it is the path of a queued
/// file whose extension the endings do not reject, and every queued
/// directory, however deep, has been asked for.
pub proof fn lemma_discovery_complete(w: Walk, p: Seq<char>)
    requires
        w.wf(),
        w@.index == w@.queue.len(),
    ensures
        w@.files.contains(p) <==> exists|i: int|
            #[trigger] kept_at(w@.file_endings, w@.queue, i) && w@.queue[i].path == p,
        forall|i: int|
            0 <= i < w@.queue.len() && (#[trigger] w@.queue[i]).is_dir ==> w@.listed.contains(
                w@.queue[i].path,
            ),
{
    let q = w@.queue;
    assert(q.take(q.len() as int) =~= q);
    lemma_found_files_members(w@.file_endings, q, p);
    assert forall|i: int| 0 <= i < q.len() && (#[trigger] q[i]).is_dir implies w@.listed.contains(
        q[i].path,
    ) by {
        lemma_directories_members(q, i);
        let d = directories(q);
        let k = choose|k: int| 0 <= k < d.len() && d[k] == q[i].path;
        assert(w@.listed[k + 1] == q[i].path);
    }
}

} // verus!
