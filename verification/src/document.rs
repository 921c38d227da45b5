//! The document: sections by name, each a table from keys to values.

use vstd::prelude::*;
use crate::assoc::{
    assoc, distinct, index_of, lemma_assoc_at, lemma_assoc_len, lemma_assoc_push, lemma_assoc_update,
};
use crate::ident::{not_valid_text, valid_identifier, validate};

verus! {

/// One key with its value.
#[derive(Debug)]
struct Entry {
    key: String,
    value: String,
}

/// A named table of entries, kept in the order in which the keys arrived.
#[derive(Debug)]
struct Section {
    name: String,
    entries: Vec<Entry>,
}

/// A document under construction: its sections in the order in which they
/// were first added.
#[derive(Debug)]
pub struct Parser {
    sections: Vec<Section>,
}

/// The name of the section that takes a pair when none is named.
pub open spec fn default_section() -> Seq<char> {
    "default"@
}

/// The section name that an optional name stands for.
pub open spec fn resolved_section(candidate: Option<String>) -> Seq<char> {
    match candidate {
        Some(s) => s@,
        None => default_section(),
    }
}

/// The document after a section `name` was added: the section is there and
/// empty, whatever it held before.
pub open spec fn with_section(
    doc: Map<Seq<char>, Map<Seq<char>, Seq<char>>>,
    name: Seq<char>,
) -> Map<Seq<char>, Map<Seq<char>, Seq<char>>> {
    doc.insert(name, Map::empty())
}

/// The document after `key` was set to `value` in `section`: the section
/// keeps its other keys, and starts out empty if it was absent.
pub open spec fn with_pair(
    doc: Map<Seq<char>, Map<Seq<char>, Seq<char>>>,
    section: Seq<char>,
    key: Seq<char>,
    value: Seq<char>,
) -> Map<Seq<char>, Map<Seq<char>, Seq<char>>> {
    let table = if doc.contains_key(section) {
        doc[section]
    } else {
        Map::empty()
    };
    doc.insert(section, table.insert(key, value))
}

/// What adding the section `name` makes of `doc`: an invalid name changes
/// nothing.
pub open spec fn after_add_section(
    doc: Map<Seq<char>, Map<Seq<char>, Seq<char>>>,
    name: Seq<char>,
) -> Map<Seq<char>, Map<Seq<char>, Seq<char>>> {
    if valid_identifier(name) {
        with_section(doc, name)
    } else {
        doc
    }
}

/// Whether a section name, a key and a value are all three valid.
pub open spec fn valid_pair(section: Seq<char>, key: Seq<char>, value: Seq<char>) -> bool {
    valid_identifier(section) && valid_identifier(key) && valid_identifier(value)
}

/// What setting `key` to `value` in `section` makes of `doc`: an invalid
/// name, key or value changes nothing.
pub open spec fn after_add_key_val(
    doc: Map<Seq<char>, Map<Seq<char>, Seq<char>>>,
    section: Seq<char>,
    key: Seq<char>,
    value: Seq<char>,
) -> Map<Seq<char>, Map<Seq<char>, Seq<char>>> {
    if valid_pair(section, key, value) {
        with_pair(doc, section, key, value)
    } else {
        doc
    }
}

/// Every section name, key and value of `doc` is a valid identifier.
pub open spec fn all_identifiers_valid(doc: Map<Seq<char>, Map<Seq<char>, Seq<char>>>) -> bool {
    forall|s: Seq<char>| #[trigger]
        doc.contains_key(s) ==> {
            &&& valid_identifier(s)
            &&& forall|k: Seq<char>| #[trigger]
                doc[s].contains_key(k) ==> valid_identifier(k) && valid_identifier(doc[s][k])
        }
}

/// The keys of the entries, in order.
spec fn entry_keys(es: Seq<Entry>) -> Seq<Seq<char>> {
    Seq::new(es.len(), |i: int| es[i].key@)
}

/// The values of the entries, in order.
spec fn entry_values(es: Seq<Entry>) -> Seq<Seq<char>> {
    Seq::new(es.len(), |i: int| es[i].value@)
}

/// The table that the entries stand for.
spec fn table_of(es: Seq<Entry>) -> Map<Seq<char>, Seq<char>> {
    assoc(entry_keys(es), entry_values(es))
}

/// The names of the sections, in order.
spec fn section_names(ss: Seq<Section>) -> Seq<Seq<char>> {
    Seq::new(ss.len(), |i: int| ss[i].name@)
}

/// The tables of the sections, in order.
spec fn section_tables(ss: Seq<Section>) -> Seq<Map<Seq<char>, Seq<char>>> {
    Seq::new(ss.len(), |i: int| table_of(ss[i].entries@))
}

/// No key occurs twice, and every key and value is a valid identifier.
spec fn entries_wf(es: Seq<Entry>) -> bool {
    &&& distinct(entry_keys(es))
    &&& forall|i: int|
        0 <= i < es.len() ==> valid_identifier(#[trigger] es[i].key@) && valid_identifier(
            es[i].value@,
        )
}

impl Section {
    /// The name is a valid identifier, and the entries are in order.
    spec fn wf(&self) -> bool {
        valid_identifier(self.name@) && entries_wf(self.entries@)
    }

    /// The index of `key` among the entries, if it is there.
    fn find(&self, key: &String) -> (r: Option<usize>)
        ensures
            match r {
                Some(i) => i < self.entries.len() && self.entries[i as int].key@ == key@,
                None => !entry_keys(self.entries@).contains(key@),
            },
    {
        let mut i: usize = 0;
        while i < self.entries.len()
            invariant
                i <= self.entries.len(),
                forall|j: int| 0 <= j < i ==> self.entries[j].key@ != key@,
            decreases self.entries.len() - i,
        {
            if self.entries[i].key == *key {
                return Some(i);
            }
            i += 1;
        }
        None
    }

    /// Sets `key` to `value`, in place where the key is there already.
    fn put(&mut self, key: String, value: String)
        requires
            old(self).wf(),
            valid_identifier(key@),
            valid_identifier(value@),
        ensures
            final(self).wf(),
            final(self).name == old(self).name,
            table_of(final(self).entries@) == table_of(old(self).entries@).insert(key@, value@),
    {
        let ghost before = self.entries@;
        let ghost k = key@;
        let ghost v = value@;
        match self.find(&key) {
            Some(i) => {
                self.entries[i].value = value;
                proof {
                    let after = self.entries@;
                    assert(entry_keys(after) =~= entry_keys(before));
                    assert(entry_values(after) =~= entry_values(before).update(i as int, v));
                    lemma_assoc_update(entry_keys(before), entry_values(before), i as int, v);
                }
            },
            None => {
                self.entries.push(Entry { key, value });
                proof {
                    let after = self.entries@;
                    assert(entry_keys(after) =~= entry_keys(before).push(k));
                    assert(entry_values(after) =~= entry_values(before).push(v));
                    lemma_assoc_push(entry_keys(before), entry_values(before), k, v);
                }
            },
        }
    }
}

impl View for Parser {
    type V = Map<Seq<char>, Map<Seq<char>, Seq<char>>>;

    closed spec fn view(&self) -> Map<Seq<char>, Map<Seq<char>, Seq<char>>> {
        assoc(section_names(self.sections@), section_tables(self.sections@))
    }
}

impl Parser {
    /// The representation is sound: no section name and, within a section,
    /// no key occurs twice, and every stored text is a valid identifier.
    pub closed spec fn wf(&self) -> bool {
        &&& distinct(section_names(self.sections@))
        &&& forall|i: int| 0 <= i < self.sections.len() ==> (#[trigger] self.sections[i]).wf()
    }

    /// An empty document.
    pub fn new() -> (p: Parser)
        ensures
            p.wf(),
            p@ == Map::<Seq<char>, Map<Seq<char>, Seq<char>>>::empty(),
    {
        let p = Parser { sections: Vec::new() };
        assert(p@ =~= Map::empty());
        p
    }

    /// The index of the section `name`, if it is there.
    fn find(&self, name: &String) -> (r: Option<usize>)
        ensures
            match r {
                Some(i) => i < self.sections.len() && self.sections[i as int].name@ == name@,
                None => !section_names(self.sections@).contains(name@),
            },
    {
        let mut i: usize = 0;
        while i < self.sections.len()
            invariant
                i <= self.sections.len(),
                forall|j: int| 0 <= j < i ==> self.sections[j].name@ != name@,
            decreases self.sections.len() - i,
        {
            if self.sections[i].name == *name {
                return Some(i);
            }
            i += 1;
        }
        None
    }

    /// Adds the section `name`, empty. A section of that name that is there
    /// already loses its entries. An invalid name changes nothing.
    pub fn add_section(&mut self, section: &String) -> (res: Result<(), &'static str>)
        requires
            old(self).wf(),
        ensures
            final(self).wf(),
            res is Ok <==> valid_identifier(section@),
            res is Err ==> res->Err_0@ == not_valid_text(),
            final(self)@ == after_add_section(old(self)@, section@),
            final(self)@.contains_key(section@) <==> res is Ok,
    {
        proof {
            self.lemma_identifiers_valid();
        }
        match validate(section) {
            Err(e) => {
                return Err(e);
            },
            Ok(()) => {},
        }
        let ghost before = self.sections@;
        let fresh = Section { name: section.clone(), entries: Vec::new() };
        assert(table_of(fresh.entries@) =~= Map::empty());
        assert(distinct(entry_keys(fresh.entries@)));
        match self.find(section) {
            Some(i) => {
                self.sections[i] = fresh;
                proof {
                    let after = self.sections@;
                    assert(section_names(after) =~= section_names(before));
                    assert(section_tables(after) =~= section_tables(before).update(
                        i as int,
                        Map::empty(),
                    ));
                    lemma_assoc_update(
                        section_names(before),
                        section_tables(before),
                        i as int,
                        Map::empty(),
                    );
                }
            },
            None => {
                self.sections.push(fresh);
                proof {
                    let after = self.sections@;
                    assert(section_names(after) =~= section_names(before).push(section@));
                    assert(section_tables(after) =~= section_tables(before).push(Map::empty()));
                    lemma_assoc_push(
                        section_names(before),
                        section_tables(before),
                        section@,
                        Map::empty(),
                    );
                }
            },
        }
        Ok(())
    }

    /// Sets `key` to `val` in the section that `candidate_section` names, or
    /// in `default` where it names none. The section name, the key and the
    /// value are validated, and one that is invalid changes nothing. A
    /// section that is absent is created; one that is there keeps its other
    /// keys.
    pub fn add_key_val(
        &mut self,
        key: String,
        val: String,
        candidate_section: Option<String>,
    ) -> (res: Result<(), &'static str>)
        requires
            old(self).wf(),
        ensures
            final(self).wf(),
            res is Ok <==> valid_pair(resolved_section(candidate_section), key@, val@),
            res is Err ==> res->Err_0@ == not_valid_text(),
            final(self)@ == after_add_key_val(
                old(self)@,
                resolved_section(candidate_section),
                key@,
                val@,
            ),
    {
        let section = match candidate_section {
            None => "default".to_owned(),
            Some(s) => s,
        };
        match validate(&section) {
            Err(e) => {
                return Err(e);
            },
            Ok(()) => {},
        }
        match validate(&key) {
            Err(e) => {
                return Err(e);
            },
            Ok(()) => {},
        }
        match validate(&val) {
            Err(e) => {
                return Err(e);
            },
            Ok(()) => {},
        }
        let ghost before = self.sections@;
        let ghost name = section@;
        let found = self.find(&section);
        let at: usize = match found {
            Some(i) => {
                proof {
                    lemma_assoc_at(section_names(before), section_tables(before), i as int);
                }
                i
            },
            None => {
                let fresh = Section { name: section, entries: Vec::new() };
                assert(table_of(fresh.entries@) =~= Map::empty());
                assert(distinct(entry_keys(fresh.entries@)));
                self.sections.push(fresh);
                proof {
                    let after = self.sections@;
                    assert(section_names(after) =~= section_names(before).push(name));
                    assert(section_tables(after) =~= section_tables(before).push(Map::empty()));
                    lemma_assoc_push(
                        section_names(before),
                        section_tables(before),
                        name,
                        Map::empty(),
                    );
                    lemma_assoc_at(section_names(after), section_tables(after), after.len() - 1);
                }
                self.sections.len() - 1
            },
        };
        let ghost middle = self.sections@;
        assert(self@ == if found is Some {
            old(self)@
        } else {
            with_section(old(self)@, name)
        });
        self.sections[at].put(key, val);
        proof {
            let after = self.sections@;
            let table = table_of(after[at as int].entries@);
            assert(section_names(after) =~= section_names(middle));
            assert(section_tables(after) =~= section_tables(middle).update(at as int, table));
            lemma_assoc_update(section_names(middle), section_tables(middle), at as int, table);
            assert(self@ =~= with_pair(old(self)@, name, key@, val@));
        }
        Ok(())
    }

    /// Whether the document has a section `name`.
    pub fn contains_section(&self, name: &str) -> (b: bool)
        ensures
            b == self@.contains_key(name@),
    {
        let name = name.to_owned();
        match self.find(&name) {
            Some(i) => {
                assert(section_names(self.sections@)[i as int] == name@);
                true
            },
            None => false,
        }
    }

    /// The value of `key` in `section`, where the document has both.
    pub fn get(&self, section: &str, key: &str) -> (r: Option<&String>)
        requires
            self.wf(),
        ensures
            match r {
                Some(v) => self@.contains_key(section@) && self@[section@].contains_key(key@)
                    && v@ == self@[section@][key@],
                None => !(self@.contains_key(section@) && self@[section@].contains_key(key@)),
            },
    {
        let section = section.to_owned();
        let key = key.to_owned();
        match self.find(&section) {
            None => None,
            Some(i) => {
                proof {
                    lemma_assoc_at(
                        section_names(self.sections@),
                        section_tables(self.sections@),
                        i as int,
                    );
                }
                let sec = &self.sections[i];
                match sec.find(&key) {
                    None => None,
                    Some(j) => {
                        proof {
                            lemma_assoc_at(
                                entry_keys(sec.entries@),
                                entry_values(sec.entries@),
                                j as int,
                            );
                        }
                        Some(&sec.entries[j].value)
                    },
                }
            },
        }
    }

    /// Whether the document has `key` in `section`.
    pub fn contains_key(&self, section: &str, key: &str) -> (b: bool)
        requires
            self.wf(),
        ensures
            b == (self@.contains_key(section@) && self@[section@].contains_key(key@)),
    {
        self.get(section, key).is_some()
    }

    /// Whether the document has no section at all.
    pub fn is_empty(&self) -> (b: bool)
        ensures
            b == (self@ == Map::<Seq<char>, Map<Seq<char>, Seq<char>>>::empty()),
    {
        if self.sections.len() == 0 {
            assert(self@ =~= Map::empty());
            true
        } else {
            assert(section_names(self.sections@)[0] == self.sections[0].name@);
            assert(self@.contains_key(self.sections[0].name@));
            false
        }
    }

    /// How many keys `section` holds; `None` where the document has no such
    /// section.
    pub fn key_count(&self, section: &str) -> (r: Option<usize>)
        requires
            self.wf(),
        ensures
            match r {
                Some(n) => self@.contains_key(section@) && self@[section@].dom().finite()
                    && self@[section@].dom().len() == n,
                None => !self@.contains_key(section@),
            },
    {
        let section = section.to_owned();
        match self.find(&section) {
            None => None,
            Some(i) => {
                proof {
                    lemma_assoc_at(
                        section_names(self.sections@),
                        section_tables(self.sections@),
                        i as int,
                    );
                    lemma_assoc_len(
                        entry_keys(self.sections[i as int].entries@),
                        entry_values(self.sections[i as int].entries@),
                    );
                }
                Some(self.sections[i].entries.len())
            },
        }
    }

    /// How many sections the document holds.
    pub fn section_count(&self) -> (n: usize)
        requires
            self.wf(),
        ensures
            self@.dom().finite(),
            self@.dom().len() == n,
    {
        proof {
            lemma_assoc_len(section_names(self.sections@), section_tables(self.sections@));
        }
        self.sections.len()
    }

    /// What the representation invariant gives of the contents: every
    /// section name, key and value in the document is a valid identifier.
    pub proof fn lemma_identifiers_valid(&self)
        requires
            self.wf(),
        ensures
            all_identifiers_valid(self@),
    {
        let names = section_names(self.sections@);
        let tables = section_tables(self.sections@);
        assert forall|s: Seq<char>| #[trigger] self@.contains_key(s) implies {
            &&& valid_identifier(s)
            &&& forall|k: Seq<char>| #[trigger]
                self@[s].contains_key(k) ==> valid_identifier(k) && valid_identifier(self@[s][k])
        } by {
            let i = index_of(names, s);
            lemma_assoc_at(names, tables, i);
            let sec = self.sections[i];
            assert(sec.wf());
            let keys = entry_keys(sec.entries@);
            let values = entry_values(sec.entries@);
            assert forall|k: Seq<char>| #[trigger] self@[s].contains_key(k) implies valid_identifier(k)
                && valid_identifier(self@[s][k]) by {
                let j = index_of(keys, k);
                lemma_assoc_at(keys, values, j);
                assert(valid_identifier(sec.entries@[j].key@));
            }
        }
    }
}

} // verus!
