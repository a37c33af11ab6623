//! The bounded breadth-first directory scanner.
//!
//! The walk itself is a state machine: the surrounding application pops the
//! next directory with [`DirScanner::next_dir`], lists it, and hands the
//! entries back through [`DirScanner::record_entries`].  Every decision —
//! the fixed ignore set, the hard cap on discovered paths, and the mount
//! prefix normalisation — is made and verified here.
//!
//! Two invariants are part of the scanner's well-formedness and hold in
//! every reachable state: at most [`MAX_SCANNED_PATHS`] paths are ever
//! recorded, and no recorded path (and no queued directory) has a path
//! component drawn from the ignore set.

use vstd::prelude::*;

verus! {

broadcast use vstd::std_specs::vec::group_vec_axioms;

/// Traversal stops once this many paths were discovered.
pub const MAX_SCANNED_PATHS: usize = 1000;

/// One directory entry as the application read it: the base name, the full
/// path, and what kind of entry it is.
pub struct ScanEntry {
    pub name: String,
    pub path: String,
    pub is_file: bool,
    pub is_dir: bool,
}

/// The mathematical model of a [`ScanEntry`].
pub struct ScanEntryModel {
    pub name: Seq<char>,
    pub path: Seq<char>,
    pub is_file: bool,
    pub is_dir: bool,
}

impl View for ScanEntry {
    type V = ScanEntryModel;

    open spec fn view(&self) -> ScanEntryModel {
        ScanEntryModel {
            name: self.name@,
            path: self.path@,
            is_file: self.is_file,
            is_dir: self.is_dir,
        }
    }
}

/// The views of a sequence of strings.
pub open spec fn strings_view(v: Seq<String>) -> Seq<Seq<char>> {
    v.map_values(|s: String| s@)
}

/// The views of a sequence of entries.
pub open spec fn entries_view(v: Seq<ScanEntry>) -> Seq<ScanEntryModel> {
    v.map_values(|e: ScanEntry| e@)
}

/// A directory base name that is never traversed and never listed:
/// version-control metadata, build output, dependency caches, and
/// editor or tooling state.
pub open spec fn is_ignored_name(s: Seq<char>) -> bool {
    ||| s == "node_modules"@
    ||| s == "target"@
    ||| s == ".git"@
    ||| s == ".svn"@
    ||| s == ".hg"@
    ||| s == "build"@
    ||| s == "dist"@
    ||| s == "out"@
    ||| s == ".next"@
    ||| s == ".nuxt"@
    ||| s == "__pycache__"@
    ||| s == ".pytest_cache"@
    ||| s == ".mypy_cache"@
    ||| s == "vendor"@
    ||| s == "deps"@
    ||| s == "_build"@
    ||| s == ".gradle"@
    ||| s == "bin"@
    ||| s == "obj"@
    ||| s == ".vs"@
    ||| s == ".vscode"@
    ||| s == ".idea"@
    ||| s == "coverage"@
    ||| s == ".nyc_output"@
    ||| s == "snapshots"@
}

/// Compares two string slices for character equality.
pub fn str_eq(a: &str, b: &str) -> (r: bool)
    ensures
        r == (a@ == b@),
{
    let ao = a.to_owned();
    let bo = b.to_owned();
    ao == bo
}

/// Whether a directory entry with this base name is skipped entirely.
pub fn should_ignore(name: &str) -> (r: bool)
    ensures
        r == is_ignored_name(name@),
{
    str_eq(name, "node_modules") || str_eq(name, "target") || str_eq(name, ".git") || str_eq(
        name,
        ".svn",
    ) || str_eq(name, ".hg") || str_eq(name, "build") || str_eq(name, "dist") || str_eq(
        name,
        "out",
    ) || str_eq(name, ".next") || str_eq(name, ".nuxt") || str_eq(name, "__pycache__") || str_eq(
        name,
        ".pytest_cache",
    ) || str_eq(name, ".mypy_cache") || str_eq(name, "vendor") || str_eq(name, "deps") || str_eq(
        name,
        "_build",
    ) || str_eq(name, ".gradle") || str_eq(name, "bin") || str_eq(name, "obj") || str_eq(
        name,
        ".vs",
    ) || str_eq(name, ".vscode") || str_eq(name, ".idea") || str_eq(name, "coverage") || str_eq(
        name,
        ".nyc_output",
    ) || str_eq(name, "snapshots")
}

/// The slice `[i, j)` of `p` is one `/`-separated path component.
pub open spec fn is_component(p: Seq<char>, i: int, j: int) -> bool {
    &&& 0 <= i <= j <= p.len()
    &&& (i == 0 || p[i - 1] == '/')
    &&& (j == p.len() || p[j] == '/')
    &&& (forall|k: int| i <= k < j ==> p[k] != '/')
}

/// Some path component of `p` is an ignored directory name: the path lies
/// at or beneath a directory that the scanner never enters.
pub open spec fn has_ignored_component(p: Seq<char>) -> bool {
    exists|i: int, j: int| is_component(p, i, j) && is_ignored_name(p.subrange(i, j))
}

/// The internal mount prefix that reads go through; it is stripped from
/// recorded paths.
pub open spec fn host_prefix() -> Seq<char> {
    seq!['/', 'h', 'o', 's', 't', '/']
}

/// A recorded path with the internal mount prefix stripped.
pub open spec fn normalize_path(p: Seq<char>) -> Seq<char> {
    if p.len() >= 6 && p.subrange(0, 6) == host_prefix() {
        p.skip(6)
    } else {
        p
    }
}

/// Strips the internal mount prefix from a path.
pub fn normalize_path_exec(p: String) -> (r: String)
    ensures
        r@ == normalize_path(p@),
{
    let chars = crate::text::chars_vec(p.as_str());
    if chars.len() >= 6 && chars[0] == '/' && chars[1] == 'h' && chars[2] == 'o' && chars[3] == 's'
        && chars[4] == 't' && chars[5] == '/' {
        proof {
            assert(p@.subrange(0, 6)[0] == p@[0]);
            assert(p@.subrange(0, 6)[1] == p@[1]);
            assert(p@.subrange(0, 6)[2] == p@[2]);
            assert(p@.subrange(0, 6)[3] == p@[3]);
            assert(p@.subrange(0, 6)[4] == p@[4]);
            assert(p@.subrange(0, 6)[5] == p@[5]);
            assert(p@.subrange(0, 6) =~= host_prefix());
        }
        let mut rest: Vec<char> = Vec::new();
        let mut i: usize = 6;
        while i < chars.len()
            invariant
                6 <= i <= chars.len(),
                chars@ == p@,
                rest@ == p@.subrange(6, i as int),
            decreases chars.len() - i,
        {
            rest.push(chars[i]);
            proof {
                assert(p@.subrange(6, i + 1 as int) =~= p@.subrange(6, i as int).push(
                    p@[i as int],
                ));
            }
            i = i + 1;
        }
        proof {
            assert(p@.subrange(6, p@.len() as int) =~= p@.skip(6));
        }
        crate::text::string_from_chars(&rest)
    } else {
        proof {
            if p@.len() >= 6 && p@.subrange(0, 6) == host_prefix() {
                assert(p@[0] == p@.subrange(0, 6)[0]);
                assert(p@[1] == p@.subrange(0, 6)[1]);
                assert(p@[2] == p@.subrange(0, 6)[2]);
                assert(p@[3] == p@.subrange(0, 6)[3]);
                assert(p@[4] == p@.subrange(0, 6)[4]);
                assert(p@[5] == p@.subrange(0, 6)[5]);
                assert(false);
            }
        }
        p
    }
}

/// The entry sits directly under `dir`: its path is the directory path,
/// a separator, and its non-empty, separator-free base name.
pub open spec fn entry_under(dir: Seq<char>, e: ScanEntryModel) -> bool {
    &&& e.path == dir + seq!['/'] + e.name
    &&& e.name.len() > 0
    &&& (forall|k: int| 0 <= k < e.name.len() ==> e.name[k] != '/')
}

/// The file paths that one directory batch records, given `nfiles` paths
/// were recorded before the batch: entries are taken in order, ignored
/// names and non-files contribute nothing, and recording stops at the cap.
pub open spec fn batch_files(entries: Seq<ScanEntryModel>, nfiles: int) -> Seq<Seq<char>>
    decreases entries.len(),
{
    if entries.len() == 0 || nfiles >= MAX_SCANNED_PATHS {
        Seq::empty()
    } else {
        let e = entries[0];
        let rest = entries.drop_first();
        if is_ignored_name(e.name) {
            batch_files(rest, nfiles)
        } else if e.is_file {
            seq![normalize_path(e.path)] + batch_files(rest, nfiles + 1)
        } else {
            batch_files(rest, nfiles)
        }
    }
}

/// The subdirectory paths that one directory batch queues for later
/// traversal; ignored names are never queued.
pub open spec fn batch_dirs(entries: Seq<ScanEntryModel>, nfiles: int) -> Seq<Seq<char>>
    decreases entries.len(),
{
    if entries.len() == 0 || nfiles >= MAX_SCANNED_PATHS {
        Seq::empty()
    } else {
        let e = entries[0];
        let rest = entries.drop_first();
        if is_ignored_name(e.name) {
            batch_dirs(rest, nfiles)
        } else if e.is_file {
            batch_dirs(rest, nfiles + 1)
        } else if e.is_dir {
            seq![e.path] + batch_dirs(rest, nfiles)
        } else {
            batch_dirs(rest, nfiles)
        }
    }
}

/// The breadth-first scanner state: the queue of directories still to
/// visit and the file paths recorded so far.
pub struct DirScanner {
    pub queue: Vec<String>,
    pub files: Vec<String>,
}

impl DirScanner {
    /// Every reachable scanner state satisfies this: the cap holds, and
    /// nothing recorded or queued lies beneath an ignored directory.
    pub open spec fn wf(&self) -> bool {
        &&& self.files@.len() <= MAX_SCANNED_PATHS
        &&& (forall|i: int|
            0 <= i < self.queue@.len() ==> !has_ignored_component(#[trigger] self.queue@[i]@))
        &&& (forall|i: int|
            0 <= i < self.files@.len() ==> !has_ignored_component(#[trigger] self.files@[i]@))
    }

    /// Starts a scan at `root`; the root itself must not lie beneath an
    /// ignored directory.
    pub fn new(root: String) -> (s: Self)
        requires
            !has_ignored_component(root@),
        ensures
            s.wf(),
            s.files@.len() == 0,
            strings_view(s.queue@) == seq![root@],
    {
        let mut queue: Vec<String> = Vec::new();
        queue.push(root);
        let s = DirScanner { queue, files: Vec::new() };
        proof {
            assert(strings_view(s.queue@) =~= seq![s.queue@[0]@]);
        }
        s
    }

    /// Takes the next directory to list, in breadth-first order.  Returns
    /// `None` once the queue is exhausted or the path cap is reached.
    pub fn next_dir(&mut self) -> (r: Option<String>)
        requires
            old(self).wf(),
        ensures
            final(self).wf(),
            final(self).files == old(self).files,
            match r {
                Some(d) => {
                    &&& old(self).queue@.len() > 0
                    &&& old(self).files@.len() < MAX_SCANNED_PATHS
                    &&& d == old(self).queue@[0]
                    &&& final(self).queue@ == old(self).queue@.drop_first()
                    &&& !has_ignored_component(d@)
                },
                None => {
                    &&& (old(self).queue@.len() == 0 || old(self).files@.len()
                        >= MAX_SCANNED_PATHS)
                    &&& final(self).queue == old(self).queue
                },
            },
    {
        if self.queue.len() == 0 || self.files.len() >= MAX_SCANNED_PATHS {
            return None;
        }
        let d = self.queue.remove(0);
        proof {
            assert(self.queue@ =~= old(self).queue@.drop_first());
        }
        Some(d)
    }

    /// Records the entries of one listed directory: files (after mount
    /// prefix normalisation) are appended to the recorded paths, fresh
    /// subdirectories to the queue, entries with ignored names contribute
    /// nothing at all, and recording stops at the path cap.
    pub fn record_entries(&mut self, dir: &String, entries: &Vec<ScanEntry>)
        requires
            old(self).wf(),
            !has_ignored_component(dir@),
            forall|i: int|
                0 <= i < entries@.len() ==> entry_under(dir@, #[trigger] entries@[i]@),
        ensures
            final(self).wf(),
            strings_view(final(self).files@) == strings_view(old(self).files@) + batch_files(
                entries_view(entries@),
                old(self).files@.len() as int,
            ),
            strings_view(final(self).queue@) == strings_view(old(self).queue@) + batch_dirs(
                entries_view(entries@),
                old(self).files@.len() as int,
            ),
    {
        let ghost all = entries_view(entries@);
        let ghost n0 = old(self).files@.len() as int;
        let mut dirs_in_level: Vec<String> = Vec::new();
        let mut i: usize = 0;
        proof {
            assert(all.skip(0) =~= all);
            assert(strings_view(old(self).files@) + batch_files(all, n0) =~= strings_view(
                self.files@,
            ) + batch_files(all.skip(0), self.files@.len() as int));
            assert(strings_view(dirs_in_level@) =~= Seq::<Seq<char>>::empty());
            assert(strings_view(dirs_in_level@) + batch_dirs(all.skip(0), n0) =~= batch_dirs(
                all,
                n0,
            ));
        }
        loop
            invariant_except_break
                i <= entries@.len(),
                all == entries_view(entries@),
                self.queue == old(self).queue,
                n0 == old(self).files@.len() as int,
                self.files@.len() <= MAX_SCANNED_PATHS,
                forall|k: int|
                    0 <= k < entries@.len() ==> entry_under(dir@, #[trigger] entries@[k]@),
                !has_ignored_component(dir@),
                forall|k: int|
                    0 <= k < self.files@.len() ==> !has_ignored_component(
                        #[trigger] self.files@[k]@,
                    ),
                forall|k: int|
                    0 <= k < dirs_in_level@.len() ==> !has_ignored_component(
                        #[trigger] dirs_in_level@[k]@,
                    ),
                strings_view(old(self).files@) + batch_files(all, n0) == strings_view(
                    self.files@,
                ) + batch_files(all.skip(i as int), self.files@.len() as int),
                batch_dirs(all, n0) == strings_view(dirs_in_level@) + batch_dirs(
                    all.skip(i as int),
                    self.files@.len() as int,
                ),
            ensures
                self.queue == old(self).queue,
                self.files@.len() <= MAX_SCANNED_PATHS,
                forall|k: int|
                    0 <= k < self.files@.len() ==> !has_ignored_component(
                        #[trigger] self.files@[k]@,
                    ),
                forall|k: int|
                    0 <= k < dirs_in_level@.len() ==> !has_ignored_component(
                        #[trigger] dirs_in_level@[k]@,
                    ),
                strings_view(self.files@) == strings_view(old(self).files@) + batch_files(
                    all,
                    n0,
                ),
                strings_view(dirs_in_level@) == batch_dirs(all, n0),
            decreases entries@.len() - i,
        {
            if i >= entries.len() {
                proof {
                    assert(all.skip(i as int) =~= Seq::<ScanEntryModel>::empty());
                    assert(batch_files(all.skip(i as int), self.files@.len() as int)
                        =~= Seq::<Seq<char>>::empty());
                    assert(batch_dirs(all.skip(i as int), self.files@.len() as int)
                        =~= Seq::<Seq<char>>::empty());
                    assert(strings_view(self.files@) + Seq::<Seq<char>>::empty()
                        =~= strings_view(self.files@));
                    assert(strings_view(dirs_in_level@) + Seq::<Seq<char>>::empty()
                        =~= strings_view(dirs_in_level@));
                }
                break;
            }
            if self.files.len() >= MAX_SCANNED_PATHS {
                proof {
                    assert(batch_files(all.skip(i as int), self.files@.len() as int)
                        =~= Seq::<Seq<char>>::empty());
                    assert(batch_dirs(all.skip(i as int), self.files@.len() as int)
                        =~= Seq::<Seq<char>>::empty());
                    assert(strings_view(self.files@) + Seq::<Seq<char>>::empty()
                        =~= strings_view(self.files@));
                    assert(strings_view(dirs_in_level@) + Seq::<Seq<char>>::empty()
                        =~= strings_view(dirs_in_level@));
                }
                break;
            }
            let ghost rest = all.skip(i as int);
            let ghost nf = self.files@.len() as int;
            let ghost fprev = self.files@;
            let ghost dprev = dirs_in_level@;
            proof {
                assert(rest[0] == entries@[i as int]@);
                assert(rest.drop_first() =~= all.skip(i + 1));
            }
            let e = &entries[i];
            if should_ignore(e.name.as_str()) {
                proof {
                    assert(batch_files(rest, nf) == batch_files(rest.drop_first(), nf));
                    assert(batch_dirs(rest, nf) == batch_dirs(rest.drop_first(), nf));
                }
                i = i + 1;
                continue;
            }
            if e.is_file {
                let clean = normalize_path_exec(e.path.clone());
                proof {
                    lemma_clean_join(dir@, e.name@);
                    lemma_clean_normalize(e.path@);
                    assert(batch_files(rest, nf) == seq![normalize_path(e.path@)] + batch_files(
                        rest.drop_first(),
                        nf + 1,
                    ));
                    assert(batch_dirs(rest, nf) == batch_dirs(rest.drop_first(), nf + 1));
                }
                self.files.push(clean);
                proof {
                    assert(strings_view(self.files@) =~= strings_view(fprev) + seq![
                        normalize_path(e.path@),
                    ]);
                    assert((strings_view(fprev) + seq![normalize_path(e.path@)]) + batch_files(
                        rest.drop_first(),
                        nf + 1,
                    ) =~= strings_view(fprev) + (seq![normalize_path(e.path@)] + batch_files(
                        rest.drop_first(),
                        nf + 1,
                    )));
                }
            } else if e.is_dir {
                proof {
                    lemma_clean_join(dir@, e.name@);
                    assert(batch_files(rest, nf) == batch_files(rest.drop_first(), nf));
                    assert(batch_dirs(rest, nf) == seq![e.path@] + batch_dirs(
                        rest.drop_first(),
                        nf,
                    ));
                }
                dirs_in_level.push(e.path.clone());
                proof {
                    assert(strings_view(dirs_in_level@) =~= strings_view(dprev) + seq![e.path@]);
                    assert((strings_view(dprev) + seq![e.path@]) + batch_dirs(
                        rest.drop_first(),
                        nf,
                    ) =~= strings_view(dprev) + (seq![e.path@] + batch_dirs(
                        rest.drop_first(),
                        nf,
                    )));
                }
            } else {
                proof {
                    assert(batch_files(rest, nf) == batch_files(rest.drop_first(), nf));
                    assert(batch_dirs(rest, nf) == batch_dirs(rest.drop_first(), nf));
                }
            }
            i = i + 1;
        }
        let ghost q0 = self.queue@;
        let ghost fdone = self.files@;
        let mut j: usize = 0;
        proof {
            assert(strings_view(dirs_in_level@).take(0) =~= Seq::<Seq<char>>::empty());
            assert(strings_view(q0) + strings_view(dirs_in_level@).take(0) =~= strings_view(q0));
        }
        while j < dirs_in_level.len()
            invariant
                j <= dirs_in_level@.len(),
                self.files@ == fdone,
                strings_view(self.queue@) == strings_view(q0) + strings_view(
                    dirs_in_level@,
                ).take(j as int),
                forall|k: int|
                    0 <= k < q0.len() ==> !has_ignored_component(#[trigger] q0[k]@),
                forall|k: int|
                    0 <= k < self.queue@.len() ==> !has_ignored_component(
                        #[trigger] self.queue@[k]@,
                    ),
                forall|k: int|
                    0 <= k < dirs_in_level@.len() ==> !has_ignored_component(
                        #[trigger] dirs_in_level@[k]@,
                    ),
            decreases dirs_in_level.len() - j,
        {
            let ghost qprev = self.queue@;
            let d = dirs_in_level[j].clone();
            self.queue.push(d);
            proof {
                assert(strings_view(self.queue@) =~= strings_view(qprev) + seq![
                    dirs_in_level@[j as int]@,
                ]);
                assert(strings_view(dirs_in_level@).take(j + 1 as int) =~= strings_view(
                    dirs_in_level@,
                ).take(j as int) + seq![dirs_in_level@[j as int]@]);
                assert((strings_view(q0) + strings_view(dirs_in_level@).take(j as int)) + seq![
                    dirs_in_level@[j as int]@,
                ] =~= strings_view(q0) + (strings_view(dirs_in_level@).take(j as int) + seq![
                    dirs_in_level@[j as int]@,
                ]));
            }
            j = j + 1;
        }
        proof {
            assert(strings_view(dirs_in_level@).take(dirs_in_level@.len() as int)
                =~= strings_view(dirs_in_level@));
        }
    }
}

/// The characters of a path joined under a clean directory with a clean,
/// separator-free name form no ignored component.
proof fn lemma_clean_join(dir: Seq<char>, name: Seq<char>)
    requires
        !has_ignored_component(dir),
        name.len() > 0,
        forall|k: int| 0 <= k < name.len() ==> name[k] != '/',
        !is_ignored_name(name),
    ensures
        !has_ignored_component(dir + seq!['/'] + name),
{
    let p = dir + seq!['/'] + name;
    let d = dir.len() as int;
    assert(p[d] == '/');
    assert forall|i: int, j: int|
        is_component(p, i, j) implies !is_ignored_name(p.subrange(i, j)) by {
        if j <= d {
            assert(is_component(dir, i, j)) by {
                assert(forall|k: int| i <= k < j ==> dir[k] == p[k]);
            }
            assert(p.subrange(i, j) =~= dir.subrange(i, j));
            assert(!is_ignored_name(dir.subrange(i, j)));
        } else if i <= d < j {
            assert(p[d] == '/');
            assert(false);
        } else {
            // i > d: the component lies inside the name region
            if i > d + 1 {
                assert(p[i - 1] == name[i - 1 - (d + 1)]);
                assert(p[i - 1] != '/');
                assert(false);
            }
            assert(i == d + 1);
            if j < p.len() {
                assert(p[j] == name[j - (d + 1)]);
                assert(p[j] != '/');
                assert(false);
            }
            assert(j == p.len());
            assert(p.subrange(i, j) =~= name);
        }
    }
}

/// Stripping the mount prefix of a clean path keeps it clean.
proof fn lemma_clean_normalize(p: Seq<char>)
    requires
        !has_ignored_component(p),
    ensures
        !has_ignored_component(normalize_path(p)),
{
    if p.len() >= 6 && p.subrange(0, 6) == host_prefix() {
        let q = p.skip(6);
        assert(p[5] == p.subrange(0, 6)[5]);
        assert(p[5] == '/');
        assert forall|i: int, j: int|
            is_component(q, i, j) implies !is_ignored_name(q.subrange(i, j)) by {
            assert(is_component(p, i + 6, j + 6)) by {
                assert(forall|k: int| i + 6 <= k < j + 6 ==> p[k] == q[k - 6]);
                if i > 0 {
                    assert(p[i + 5] == q[i - 1]);
                }
            }
            assert(p.subrange(i + 6, j + 6) =~= q.subrange(i, j));
            assert(!is_ignored_name(p.subrange(i + 6, j + 6)));
        }
    }
}

/// Cap invariant: a well-formed scanner never records more than
/// [`MAX_SCANNED_PATHS`] paths, whatever directory tree it is fed.
pub proof fn lemma_scan_cap(s: &DirScanner)
    requires
        s.wf(),
    ensures
        s.files@.len() <= MAX_SCANNED_PATHS,
{
}

/// Ignore-list invariant: a well-formed scanner records no path that has
/// an ignored directory name among its components, so nothing beneath an
/// ignored directory ever appears in the scanner's output.
pub proof fn lemma_scan_excludes_ignored(s: &DirScanner, i: int)
    requires
        s.wf(),
        0 <= i < s.files@.len(),
    ensures
        !has_ignored_component(s.files@[i]@),
{
}

} // verus!
