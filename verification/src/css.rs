//! The registry of style sheets that the bundler merges: one record per file,
//! found by its path, with the state that a file watcher reports.
use vstd::prelude::*;

verus! {

/// One line of a style sheet: text, or the path of an imported sheet.
#[derive(Debug)]
pub enum Partial {
    String(String),
    File(String),
}

/// What the watcher last reported of a file.
#[derive(Clone, Copy, Debug, PartialEq, Eq, Structural)]
pub enum FileState {
    Clean,
    Dirty,
    Dead,
}

/// One style sheet: its path, its lines in order, and what the watcher knows
/// of it.
#[derive(Debug)]
pub struct CssFile {
    pub path: String,
    pub lines: Vec<Partial>,
    /// Seconds since the epoch at which the file was last seen changed.
    pub last_changed: u64,
    pub state: FileState,
}

impl CssFile {
    /// A clean sheet without lines, never seen changed.
    pub fn new(path: String) -> (file: CssFile)
        ensures
            file.path == path,
            file.lines@.len() == 0,
            file.last_changed == 0,
            file.state == FileState::Clean,
    {
        CssFile { path, lines: Vec::new(), last_changed: 0, state: FileState::Clean }
    }
}

/// The bundler: what to read, where to write, and every sheet met so far.
#[derive(Debug)]
pub struct Application {
    pub input: String,
    pub output: Option<String>,
    pub watch: bool,
    pub prelude_selector: bool,
    pub fm: Vec<CssFile>,
}

impl Application {
    /// No path is registered twice.
    pub open spec fn wf(&self) -> bool {
        forall|i: int, j: int|
            0 <= i < j < self.fm@.len() ==> self.fm@[i].path@ != self.fm@[j].path@
    }

    /// The path is registered.
    pub open spec fn knows(&self, path: Seq<char>) -> bool {
        exists|k: int| 0 <= k < self.fm@.len() && (#[trigger] self.fm@[k]).path@ == path
    }

    /// The registry with the state of the file at `path` set, where it is
    /// registered.
    pub open spec fn marked(files: Seq<CssFile>, path: Seq<char>, state: FileState) -> Seq<
        CssFile,
    > {
        Seq::new(
            files.len(),
            |k: int|
                if files[k].path@ == path {
                    CssFile { state, ..files[k] }
                } else {
                    files[k]
                },
        )
    }

    /// An application without registered files.
    pub fn new(input: String, output: Option<String>, watch: bool, prelude_selector: bool) -> (app:
        Application)
        ensures
            app.wf(),
            app.input == input,
            app.output == output,
            app.watch == watch,
            app.prelude_selector == prelude_selector,
            app.fm@.len() == 0,
    {
        Application { input, output, watch, prelude_selector, fm: Vec::new() }
    }

    /// The index of the file registered under `path`.
    pub fn css_at_path(&self, path: &String) -> (r: Option<usize>)
        ensures
            match r {
                Some(k) => k < self.fm@.len() && self.fm@[k as int].path@ == path@ && forall|
                    j: int,
                |
                    0 <= j < k ==> self.fm@[j].path@ != path@,
                None => !self.knows(path@),
            },
    {
        let mut k: usize = 0;
        while k < self.fm.len()
            invariant
                k <= self.fm@.len(),
                forall|j: int| 0 <= j < k ==> (#[trigger] self.fm@[j]).path@ != path@,
            decreases self.fm@.len() - k,
        {
            if self.fm[k].path == *path {
                return Some(k);
            }
            k += 1;
        }
        None
    }

    /// Registers `path` with a fresh record unless it is registered, and
    /// returns the index of its record.
    pub fn register(&mut self, path: String) -> (k: usize)
        ensures
            old(self).wf() ==> final(self).wf(),
            k < final(self).fm@.len(),
            final(self).fm@[k as int].path@ == path@,
            old(self).knows(path@) ==> final(self).fm@ == old(self).fm@,
            !old(self).knows(path@) ==> k == old(self).fm@.len() && final(self).fm@.len() == k + 1
                && final(self).fm@.take(k as int) == old(self).fm@ && final(self).fm@[k as int].state
                == FileState::Clean && final(self).fm@[k as int].lines@.len() == 0,
            final(self).input == old(self).input,
            final(self).output == old(self).output,
            final(self).watch == old(self).watch,
            final(self).prelude_selector == old(self).prelude_selector,
    {
        match self.css_at_path(&path) {
            Some(k) => k,
            None => {
                let k = self.fm.len();
                self.fm.push(CssFile::new(path));
                assert(self.fm@.take(k as int) =~= old(self).fm@);
                k
            },
        }
    }

    fn mark(&mut self, path: &String, state: FileState)
        ensures
            old(self).wf() ==> final(self).wf(),
            final(self).fm@ == Self::marked(old(self).fm@, path@, state),
            final(self).input == old(self).input,
            final(self).output == old(self).output,
            final(self).watch == old(self).watch,
            final(self).prelude_selector == old(self).prelude_selector,
    {
        let ghost files = self.fm@;
        let n = self.fm.len();
        let mut k: usize = 0;
        while k < n
            invariant
                k <= n,
                n == files.len(),
                self.fm@.len() == n,
                forall|j: int| 0 <= j < k ==> self.fm@[j] == Self::marked(files, path@, state)[j],
                forall|j: int| k <= j < n ==> self.fm@[j] == files[j],
                self.input == old(self).input,
                self.output == old(self).output,
                self.watch == old(self).watch,
                self.prelude_selector == old(self).prelude_selector,
            decreases n - k,
        {
            if self.fm[k].path == *path {
                self.fm[k].state = state;
            }
            k += 1;
        }
        assert(self.fm@ =~= Self::marked(files, path@, state));
    }

    /// Records that the file at `path` changed on disk. An unknown path is
    /// ignored.
    pub fn mark_dirty(&mut self, path: &String)
        ensures
            old(self).wf() ==> final(self).wf(),
            final(self).fm@ == Self::marked(old(self).fm@, path@, FileState::Dirty),
            final(self).input == old(self).input,
            final(self).output == old(self).output,
            final(self).watch == old(self).watch,
            final(self).prelude_selector == old(self).prelude_selector,
    {
        self.mark(path, FileState::Dirty);
    }

    /// Records that the file at `path` is gone. An unknown path is ignored.
    pub fn mark_dead(&mut self, path: &String)
        ensures
            old(self).wf() ==> final(self).wf(),
            final(self).fm@ == Self::marked(old(self).fm@, path@, FileState::Dead),
            final(self).input == old(self).input,
            final(self).output == old(self).output,
            final(self).watch == old(self).watch,
            final(self).prelude_selector == old(self).prelude_selector,
    {
        self.mark(path, FileState::Dead);
    }
}

} // verus!
