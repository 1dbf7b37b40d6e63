use vstd::prelude::*;
use crate::text::same_text;

verus! {

/// What one attempt to read a file gave: its text, or nothing when the file
/// could not be read.
pub struct FileEntry {
    pub path: String,
    pub content: Option<String>,
}

/// The files that have been read so far, each with what the read gave.
///
/// The library never touches the filesystem. Its caller reads the files that
/// the library names and records each outcome here; every function that
/// depends on file contents takes the record as an argument. A path is
/// recorded once: the first outcome stays.
pub struct Files {
    pub entries: Vec<FileEntry>,
}

/// The characters of an optional text.
pub open spec fn text_view(t: Option<String>) -> Option<Seq<char>> {
    match t {
        Some(s) => Some(s@),
        None => None,
    }
}

/// The record that a sequence of entries stands for: each path that occurs,
/// with the outcome of its earliest entry.
pub open spec fn table(entries: Seq<FileEntry>) -> Map<Seq<char>, Option<Seq<char>>>
    decreases entries.len(),
{
    if entries.len() == 0 {
        Map::empty()
    } else {
        let earlier = table(entries.drop_last());
        let e = entries.last();
        if earlier.dom().contains(e.path@) {
            earlier
        } else {
            earlier.insert(e.path@, text_view(e.content))
        }
    }
}

/// The text that a record holds for `path`: `None` when the path was not
/// read, and when reading it failed.
pub open spec fn text_at(files: Map<Seq<char>, Option<Seq<char>>>, path: Seq<char>) -> Option<
    Seq<char>,
> {
    if files.dom().contains(path) {
        files[path]
    } else {
        None
    }
}

/// A path is recorded exactly when some entry names it, and the record holds
/// the outcome of the earliest such entry.
pub proof fn lemma_table(entries: Seq<FileEntry>, path: Seq<char>)
    ensures
        table(entries).dom().contains(path) <==> exists|j: int|
            0 <= j < entries.len() && (#[trigger] entries[j]).path@ == path,
        forall|j: int|
            0 <= j < entries.len() && (#[trigger] entries[j]).path@ == path && (forall|i: int|
                0 <= i < j ==> (#[trigger] entries[i]).path@ != path) ==> table(entries)[path]
                == text_view(entries[j].content),
    decreases entries.len(),
{
    if entries.len() > 0 {
        let front = entries.drop_last();
        lemma_table(front, path);
        assert(forall|j: int| 0 <= j < front.len() ==> front[j] == entries[j]);
        if table(front).dom().contains(path) {
            let j = choose|j: int| 0 <= j < front.len() && (#[trigger] front[j]).path@ == path;
            assert(entries[j].path@ == path);
        }
        assert forall|j: int|
            0 <= j < entries.len() && (#[trigger] entries[j]).path@ == path && (forall|i: int|
                0 <= i < j ==> (#[trigger] entries[i]).path@ != path) implies table(entries)[path]
            == text_view(entries[j].content) by {
            if j < front.len() {
                assert(front[j].path@ == path);
                assert(forall|i: int| 0 <= i < j ==> front[i] == entries[i]);
            } else {
                if table(front).dom().contains(path) {
                    let i = choose|i: int|
                        0 <= i < front.len() && (#[trigger] front[i]).path@ == path;
                    assert(entries[i].path@ == path);
                }
            }
        }
    }
}

impl View for Files {
    type V = Map<Seq<char>, Option<Seq<char>>>;

    open spec fn view(&self) -> Map<Seq<char>, Option<Seq<char>>> {
        table(self.entries@)
    }
}

impl Files {
    /// A record of no reads.
    pub fn new() -> (files: Files)
        ensures
            files@ == Map::<Seq<char>, Option<Seq<char>>>::empty(),
    {
        Files { entries: Vec::new() }
    }

    /// Records what reading `path` gave. A path that is already recorded
    /// keeps its earlier outcome.
    pub fn record(&mut self, path: String, content: Option<String>)
        ensures
            final(self)@ == if old(self)@.dom().contains(path@) {
                old(self)@
            } else {
                old(self)@.insert(path@, text_view(content))
            },
    {
        let ghost before = self.entries@;
        let entry = FileEntry { path, content };
        self.entries.push(entry);
        assert(self.entries@.drop_last() == before);
    }

    /// Position of the earliest entry for `path`, or the number of entries
    /// when there is none.
    fn position(&self, path: &str) -> (k: usize)
        ensures
            k <= self.entries.len(),
            k < self.entries.len() <==> self@.dom().contains(path@),
            k < self.entries.len() ==> self.entries[k as int].path@ == path@ && self@[path@]
                == text_view(self.entries[k as int].content),
    {
        let mut k: usize = 0;
        while k < self.entries.len()
            invariant
                k <= self.entries.len(),
                forall|i: int| 0 <= i < k ==> (#[trigger] self.entries[i]).path@ != path@,
            decreases self.entries.len() - k,
        {
            if same_text(self.entries[k].path.as_str(), path) {
                proof {
                    lemma_table(self.entries@, path@);
                }
                return k;
            }
            k = k + 1;
        }
        proof {
            lemma_table(self.entries@, path@);
        }
        k
    }

    /// Whether `path` has been read, with or without success.
    pub fn knows(&self, path: &str) -> (known: bool)
        ensures
            known == self@.dom().contains(path@),
    {
        self.position(path) < self.entries.len()
    }

    /// The text recorded for `path`, if the path was read and the read gave
    /// one.
    pub fn read(&self, path: &str) -> (out: Option<&String>)
        ensures
            match out {
                Some(text) => text_at(self@, path@) == Some(text@),
                None => text_at(self@, path@) is None,
            },
    {
        let k = self.position(path);
        if k < self.entries.len() {
            self.entries[k].content.as_ref()
        } else {
            None
        }
    }
}

} // verus!
