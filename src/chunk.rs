use vstd::prelude::*;

verus! {

/// A named section of assembler source (`.code`, `.data`) with its lines,
/// each paired with its line number in the source file.
pub struct Chunk {
    name: String,
    data: Vec<(usize, String)>,
}

impl View for Chunk {
    type V = (Seq<char>, Seq<(usize, String)>);

    closed spec fn view(&self) -> (Seq<char>, Seq<(usize, String)>) {
        (self.name@, self.data@)
    }
}

impl Chunk {
    /// An empty section called `name`.
    pub fn new(name: String) -> (c: Self)
        ensures
            c@.0 == name@,
            c@.1 == Seq::<(usize, String)>::empty(),
    {
        let data = Vec::new();
        Self { name, data }
    }

    /// Appends `line`, found on line `id` of the source.
    pub fn insert_line(&mut self, line: String, id: usize)
        ensures
            final(self)@ == (old(self)@.0, old(self)@.1.push((id, line))),
    {
        self.data.push((id, line));
    }

    /// Name of the section.
    pub fn name(&self) -> (n: &String)
        ensures
            n@ == self@.0,
    {
        &self.name
    }

    /// The lines, in the order they were added.
    pub fn data(self) -> (d: Vec<(usize, String)>)
        ensures
            d@ == self@.1,
    {
        self.data
    }
}

} // verus!
