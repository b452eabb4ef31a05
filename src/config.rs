//! Style tables: for each language, the face of each capture name.

use vstd::prelude::*;

use crate::table::Table;

verus! {

/// The faces of one language, by capture name.
pub struct Faces {
    table: Table<String>,
}

impl Faces {
    pub closed spec fn wf(&self) -> bool {
        self.table.wf()
    }

    /// The face of each capture name.
    pub closed spec fn view(&self) -> Map<Seq<char>, Seq<char>> {
        self.table.map().map_values(|f: String| f@)
    }

    /// A table with no face.
    pub fn new() -> (r: Faces)
        ensures
            r.wf(),
            r.view() == Map::<Seq<char>, Seq<char>>::empty(),
    {
        let r = Faces { table: Table::new() };
        assert(r.view() =~= Map::<Seq<char>, Seq<char>>::empty());
        r
    }

    /// Sets the face of a capture name.
    pub fn insert(&mut self, capture: String, face: String)
        requires
            old(self).wf(),
        ensures
            final(self).wf(),
            final(self).view() == old(self).view().insert(capture@, face@),
    {
        self.table.insert(capture, face);
        assert(self.view() =~= old(self).view().insert(capture@, face@));
    }

    /// The face of a capture name, if it has one.
    pub fn get(&self, capture: &str) -> (r: Option<&String>)
        requires
            self.wf(),
        ensures
            match r {
                Some(f) => self.view().contains_key(capture@) && f@ == self.view()[capture@],
                None => !self.view().contains_key(capture@),
            },
    {
        self.table.get(capture)
    }
}

/// The style tables of every configured language.
pub struct Config {
    languages: Table<Faces>,
}

impl Config {
    pub closed spec fn wf(&self) -> bool {
        &&& self.languages.wf()
        &&& forall|l: Seq<char>| #[trigger]
            self.languages.map().contains_key(l) ==> self.languages.map()[l].wf()
    }

    /// The style table of each configured language.
    pub closed spec fn view(&self) -> Map<Seq<char>, Map<Seq<char>, Seq<char>>> {
        self.languages.map().map_values(|f: Faces| f.view())
    }

    /// A configuration with no language.
    pub fn new() -> (r: Config)
        ensures
            r.wf(),
            r.view() == Map::<Seq<char>, Map<Seq<char>, Seq<char>>>::empty(),
    {
        let r = Config { languages: Table::new() };
        assert(r.view() =~= Map::<Seq<char>, Map<Seq<char>, Seq<char>>>::empty());
        r
    }

    /// Sets the style table of a language.
    pub fn set_faces(&mut self, language: String, faces: Faces)
        requires
            old(self).wf(),
            faces.wf(),
        ensures
            final(self).wf(),
            final(self).view() == old(self).view().insert(language@, faces.view()),
    {
        self.languages.insert(language, faces);
        assert(self.view() =~= old(self).view().insert(language@, faces.view()));
    }

    /// The style table of a language, if it has one.
    pub fn faces(&self, language: &str) -> (r: Option<&Faces>)
        requires
            self.wf(),
        ensures
            match r {
                Some(f) => {
                    &&& self.view().contains_key(language@)
                    &&& f.view() == self.view()[language@]
                    &&& f.wf()
                },
                None => !self.view().contains_key(language@),
            },
    {
        self.languages.get(language)
    }
}

} // verus!
