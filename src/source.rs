//! The set of source files an assembly may read, keyed by path.
use vstd::prelude::*;

verus! {

/// The text stored under `path`; a later entry for the same path wins.
pub open spec fn file_lookup(files: Seq<(Seq<char>, Seq<char>)>, path: Seq<char>) -> Option<
    Seq<char>,
>
    decreases files.len(),
{
    if files.len() == 0 {
        None
    } else if files.last().0 == path {
        Some(files.last().1)
    } else {
        file_lookup(files.drop_last(), path)
    }
}

/// Source texts by path, as the caller has read them.
pub struct SourceFiles {
    files: Vec<(String, String)>,
}

impl View for SourceFiles {
    type V = Seq<(Seq<char>, Seq<char>)>;

    closed spec fn view(&self) -> Seq<(Seq<char>, Seq<char>)> {
        self.files@.map_values(|e: (String, String)| (e.0@, e.1@))
    }
}

impl SourceFiles {
    /// No files.
    pub fn new() -> (r: SourceFiles)
        ensures
            r@ == Seq::<(Seq<char>, Seq<char>)>::empty(),
    {
        let r = SourceFiles { files: Vec::new() };
        assert(r@ =~= Seq::<(Seq<char>, Seq<char>)>::empty());
        r
    }

    /// Stores `text` under `path`, replacing what was stored there.
    pub fn add(&mut self, path: &str, text: &str)
        ensures
            final(self)@ == old(self)@.push((path@, text@)),
    {
        self.files.push((String::from_str(path), String::from_str(text)));
        assert(final(self)@ =~= old(self)@.push((path@, text@)));
    }

    /// The text stored under `path`.
    pub fn get(&self, path: &String) -> (r: Option<&String>)
        ensures
            match r {
                Some(t) => file_lookup(self@, path@) == Some(t@),
                None => file_lookup(self@, path@) is None,
            },
    {
        let mut i: usize = self.files.len();
        assert(self@.subrange(0, i as int) =~= self@);
        while i > 0
            invariant
                i <= self.files@.len(),
                file_lookup(self@, path@) == file_lookup(self@.subrange(0, i as int), path@),
            decreases i,
        {
            let ghost s = self@.subrange(0, i as int);
            assert(s.drop_last() == self@.subrange(0, i - 1));
            if self.files[i - 1].0.eq(path) {
                return Some(&self.files[i - 1].1);
            }
            i = i - 1;
        }
        None
    }
}

} // verus!
