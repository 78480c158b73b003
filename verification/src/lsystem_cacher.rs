//! A cache of generated strings and of what was drawn from them, by the
//! name of the L-system and the number of generations.
//!
//! Like the tables of rules, the cache is a list that is read as a map: its
//! keys hold text, and vstd knows the hashing of integers and `bool` only.

use vstd::prelude::*;
use crate::grammar::{Alphabet, GrammarError};
use crate::lsystem::LSystemDefinition;
use crate::text::same_text;

verus! {

/// The key of what is kept: the name of the L-system and the number of
/// generations.
#[derive(Hash, PartialEq, Eq, Clone)]
pub struct LSystemKey(pub &'static str, pub u8);

impl View for LSystemKey {
    type V = (Seq<char>, u8);

    open spec fn view(&self) -> (Seq<char>, u8) {
        (self.0@, self.1)
    }
}

/// What the first `n` entries keep. A later entry with the key of an
/// earlier one takes its place.
pub open spec fn kept_of<V>(entries: Seq<(LSystemKey, V)>, n: int) -> Map<(Seq<char>, u8), V>
    decreases n,
{
    if n <= 0 {
        Map::empty()
    } else {
        kept_of(entries, n - 1).insert(entries[n - 1].0@, entries[n - 1].1)
    }
}

/// Entries that agree in their first `n` places keep the same there.
pub proof fn lemma_kept_same<V>(a: Seq<(LSystemKey, V)>, b: Seq<(LSystemKey, V)>, n: int)
    requires
        0 <= n <= a.len(),
        n <= b.len(),
        forall|j: int| 0 <= j < n ==> a[j] == b[j],
    ensures
        kept_of(a, n) == kept_of(b, n),
    decreases n,
{
    if n > 0 {
        lemma_kept_same(a, b, n - 1);
    }
}

/// The place of the last of `entries` with the key of `name` and
/// `generation`.
fn place_of<V>(entries: &Vec<(LSystemKey, V)>, name: &str, generation: u8) -> (r: Option<usize>)
    ensures
        ({
            let kept = kept_of(entries@, entries@.len() as int);
            match r {
                Some(at) => {
                    &&& at < entries@.len()
                    &&& kept.contains_key((name@, generation))
                    &&& kept[(name@, generation)] == entries@[at as int].1
                },
                None => !kept.contains_key((name@, generation)),
            }
        }),
{
    let n = entries.len();
    let ghost kept = kept_of(entries@, n as int);
    let ghost key = (name@, generation);
    let mut i: usize = n;
    while i > 0
        invariant
            n == entries@.len(),
            i <= n,
            kept == kept_of(entries@, n as int),
            key == (name@, generation),
            kept.contains_key(key) == kept_of(entries@, i as int).contains_key(key),
            kept.contains_key(key) ==> kept[key] == kept_of(entries@, i as int)[key],
        decreases i,
    {
        i -= 1;
        if entries[i].0.1 == generation && same_text(entries[i].0.0, name) {
            return Some(i);
        }
    }
    None
}

/// Generates the strings of L-systems once, and keeps them together with
/// what was drawn from them.
///
/// `T` is the type of what a drawing is made of.
pub struct LSystemFactory<T> {
    lsystems_alphabets: Vec<(LSystemKey, Alphabet)>,
    lsystems_meshes: Vec<(LSystemKey, Vec<T>)>,
}

impl<T> LSystemFactory<T> {
    /// The strings that are kept.
    pub closed spec fn alphabets(&self) -> Map<(Seq<char>, u8), Alphabet> {
        kept_of(self.lsystems_alphabets@, self.lsystems_alphabets@.len() as int)
    }

    /// The drawings that are kept.
    pub closed spec fn meshes(&self) -> Map<(Seq<char>, u8), Vec<T>> {
        kept_of(self.lsystems_meshes@, self.lsystems_meshes@.len() as int)
    }

    /// A factory that keeps nothing yet.
    pub fn new() -> (r: Self)
        ensures
            r.alphabets() == Map::<(Seq<char>, u8), Alphabet>::empty(),
            r.meshes() == Map::<(Seq<char>, u8), Vec<T>>::empty(),
    {
        Self { lsystems_alphabets: Vec::new(), lsystems_meshes: Vec::new() }
    }

    /// The string of the L-system that `definition` defines, after
    /// `generation` generations: the one that is kept for the name of the
    /// definition and the number of generations, where there is one; else
    /// the string is generated, and kept from then on. It fails, and keeps
    /// nothing, where generating fails.
    pub fn generate<L: LSystemDefinition>(&mut self, definition: &L, generation: u8) -> (r: Result<
        &Alphabet,
        GrammarError,
    >)
        ensures
            final(self).meshes() == old(self).meshes(),
            ({
                let key = (definition.named(), generation);
                if old(self).alphabets().contains_key(key) {
                    &&& r is Ok
                    &&& *r->Ok_0 == old(self).alphabets()[key]
                    &&& final(self).alphabets() == old(self).alphabets()
                } else {
                    match definition.defined().generated(generation) {
                        Ok(alphabet) => {
                            &&& r is Ok
                            &&& r->Ok_0@ == alphabet
                            &&& final(self).alphabets() == old(self).alphabets().insert(
                                key,
                                *r->Ok_0,
                            )
                        },
                        Err(e) => {
                            &&& r is Err
                            &&& r->Err_0 == e
                            &&& final(self).alphabets() == old(self).alphabets()
                        },
                    }
                }
            }),
    {
        let name = definition.name();
        let at = match place_of(&self.lsystems_alphabets, name, generation) {
            Some(at) => at,
            None => {
                let lsystem = definition.lsystem();
                let alphabet = lsystem.generate(generation)?;
                proof {
                    lemma_kept_same(
                        self.lsystems_alphabets@,
                        self.lsystems_alphabets@.push((LSystemKey(name, generation), alphabet)),
                        self.lsystems_alphabets@.len() as int,
                    );
                }
                self.lsystems_alphabets.push((LSystemKey(name, generation), alphabet));
                self.lsystems_alphabets.len() - 1
            },
        };
        Ok(&self.lsystems_alphabets[at].1)
    }

    /// The string that is kept for `name` and `generation`.
    pub fn alphabet(&self, name: &str, generation: u8) -> (r: Option<&Alphabet>)
        ensures
            match r {
                Some(alphabet) => self.alphabets().contains_key((name@, generation))
                    && *alphabet == self.alphabets()[(name@, generation)],
                None => !self.alphabets().contains_key((name@, generation)),
            },
    {
        match place_of(&self.lsystems_alphabets, name, generation) {
            Some(at) => Some(&self.lsystems_alphabets[at].1),
            None => None,
        }
    }

    /// The drawing that is kept for `name` and `generation`.
    pub fn drawing(&self, name: &str, generation: u8) -> (r: Option<&Vec<T>>)
        ensures
            match r {
                Some(drawing) => self.meshes().contains_key((name@, generation)) && *drawing
                    == self.meshes()[(name@, generation)],
                None => !self.meshes().contains_key((name@, generation)),
            },
    {
        match place_of(&self.lsystems_meshes, name, generation) {
            Some(at) => Some(&self.lsystems_meshes[at].1),
            None => None,
        }
    }

    /// Keeps `drawing` for `key`.
    pub fn keep_drawing(&mut self, key: LSystemKey, drawing: Vec<T>)
        ensures
            final(self).meshes() == old(self).meshes().insert(key@, drawing),
            final(self).alphabets() == old(self).alphabets(),
    {
        proof {
            lemma_kept_same(
                self.lsystems_meshes@,
                self.lsystems_meshes@.push((key, drawing)),
                self.lsystems_meshes@.len() as int,
            );
        }
        self.lsystems_meshes.push((key, drawing));
    }
}

} // verus!
