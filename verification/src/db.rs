//! The spell database: a linear predicate scan over spell records.

use std::rc::Rc;

use vstd::prelude::*;

use crate::spell::{Spell, SpellV, Traditions};
use crate::strutil::find_from;

verus! {

/// A search query: a case-insensitive name fragment, an optional exact rank,
/// and tradition flags that each exclude spells lacking that tradition.
#[derive(Debug, Clone, Default)]
pub struct Query {
    pub name_query: String,
    pub spell_rank: Option<u8>,
    pub is_arcane: bool,
    pub is_primal: bool,
    pub is_divine: bool,
    pub is_occult: bool,
}

/// Model of a [`Query`].
pub struct QueryV {
    pub name_query: Seq<char>,
    pub spell_rank: Option<u8>,
    pub is_arcane: bool,
    pub is_primal: bool,
    pub is_divine: bool,
    pub is_occult: bool,
}

impl View for Query {
    type V = QueryV;

    open spec fn view(&self) -> QueryV {
        QueryV {
            name_query: self.name_query@,
            spell_rank: self.spell_rank,
            is_arcane: self.is_arcane,
            is_primal: self.is_primal,
            is_divine: self.is_divine,
            is_occult: self.is_occult,
        }
    }
}

/// The lowercase form of a text.  What it is for given characters only the
/// Unicode tables say; the engine relies only on it being a function of the
/// characters.
pub uninterp spec fn lower_of(s: Seq<char>) -> Seq<char>;

/// Relies on `str::to_lowercase`: the result depends on the characters
/// alone.
#[verifier::external_body]
fn to_lower(s: &str) -> (r: String)
    ensures
        r@ == lower_of(s@),
{
    s.to_lowercase()
}

/// Whether `pat` occurs in `t` (an empty pattern always occurs).
pub open spec fn contains_seq(t: Seq<char>, pat: Seq<char>) -> bool {
    pat.len() == 0 || find_from(t, pat, 0) is Some
}

/// Whether `pat` occurs in `t`, by scanning.
pub fn contains_exec(t: &str, pat: &str) -> (r: bool)
    ensures
        r == contains_seq(t@, pat@),
{
    let n = t.unicode_len();
    let m = pat.unicode_len();
    if m == 0 {
        return true;
    }
    match crate::strutil::find_from_exec(t, n, pat, m, 0) {
        Some(_) => true,
        None => false,
    }
}

/// Whether a spell matches a query's rank constraint.
pub open spec fn rank_matches(q: QueryV, level: u8) -> bool {
    match q.spell_rank {
        Some(r) => r == level,
        None => true,
    }
}

/// Whether a spell's traditions satisfy a query's tradition flags.
pub open spec fn traditions_match(q: QueryV, t: Traditions) -> bool {
    !((q.is_arcane && !t.is_arcane) || (q.is_divine && !t.is_divine) || (q.is_primal
        && !t.is_primal) || (q.is_occult && !t.is_occult))
}

/// Whether a spell's lowercased name contains the lowercased query fragment.
pub open spec fn name_matches(q: QueryV, name: Seq<char>) -> bool {
    contains_seq(lower_of(name), lower_of(q.name_query))
}

/// Whether a spell matches a query.
pub open spec fn query_matches(q: QueryV, s: SpellV) -> bool {
    name_matches(q, s.name) && rank_matches(q, s.level) && traditions_match(q, s.traditions)
}

/// The match predicate of a query, as one function value shared by every
/// contract that filters with it.
pub open spec fn match_pred(q: QueryV) -> spec_fn(SpellV) -> bool {
    |s: SpellV| query_matches(q, s)
}

impl Query {
    /// Whether `spell` matches this query.
    pub fn test(&self, spell: &Spell) -> (r: bool)
        ensures
            r == query_matches(self@, spell@),
    {
        self.test_name(spell.name.as_str()) && self.test_rank(spell.level) && self.test_tradition(
            &spell.traditions,
        )
    }

    fn test_rank(&self, rank: u8) -> (r: bool)
        ensures
            r == rank_matches(self@, rank),
    {
        if let Some(query_rank) = self.spell_rank {
            query_rank == rank
        } else {
            true
        }
    }

    fn test_name(&self, name: &str) -> (r: bool)
        ensures
            r == name_matches(self@, name@),
    {
        let lowered_name = to_lower(name);
        let lowered_query = to_lower(self.name_query.as_str());
        contains_exec(lowered_name.as_str(), lowered_query.as_str())
    }

    fn test_tradition(&self, traditions: &Traditions) -> (r: bool)
        ensures
            r == traditions_match(self@, *traditions),
    {
        let is_mismatch = (self.is_arcane && !traditions.is_arcane) || (self.is_divine
            && !traditions.is_divine) || (self.is_primal && !traditions.is_primal) || (
        self.is_occult && !traditions.is_occult);
        !is_mismatch
    }
}

/// A searchable store of spells.
pub trait SpellDB {
    /// The spells the store holds, in order.
    spec fn spells_model(&self) -> Seq<SpellV>;

    /// The spells matching `query`, in store order.
    fn search(&self, query: &Query) -> (r: Vec<Rc<Spell>>)
        ensures
            r@.map_values(|s: Rc<Spell>| s@) == self.spells_model().filter(
                match_pred(query@),
            ),
    ;
}

/// The simplest possible spell store: a vector scanned linearly.
pub struct SimpleSpellDB {
    spells: Vec<Spell>,
}

impl SimpleSpellDB {
    /// A store over the given records.
    pub fn new(spells: Vec<Spell>) -> (r: SimpleSpellDB)
        ensures
            r.spells_model() == spells@.map_values(|s: Spell| s@),
    {
        SimpleSpellDB { spells }
    }
}

impl SpellDB for SimpleSpellDB {
    closed spec fn spells_model(&self) -> Seq<SpellV> {
        self.spells@.map_values(|s: Spell| s@)
    }

    fn search(&self, query: &Query) -> (r: Vec<Rc<Spell>>)
        ensures
            r@.map_values(|s: Rc<Spell>| s@) == self.spells_model().filter(
                match_pred(query@),
            ),
    {
        let ghost pred = match_pred(query@);
        let ghost all = self.spells_model();
        let mut out: Vec<Rc<Spell>> = Vec::new();
        let mut i: usize = 0;
        proof {
            reveal(Seq::filter);
            assert(all.subrange(0, 0) =~= Seq::<SpellV>::empty());
            assert(out@.map_values(|s: Rc<Spell>| s@) =~= all.subrange(0, 0).filter(pred));
        }
        while i < self.spells.len()
            invariant
                0 <= i <= self.spells@.len(),
                all == self.spells_model(),
                all.len() == self.spells@.len(),
                pred == match_pred(query@),
                out@.map_values(|s: Rc<Spell>| s@) == all.subrange(0, i as int).filter(pred),
            decreases self.spells@.len() - i,
        {
            proof {
                reveal(Seq::filter);
                assert(all[i as int] == self.spells@[i as int]@);
                assert(all.subrange(0, i as int + 1).drop_last() =~= all.subrange(0, i as int));
                assert(all.subrange(0, i as int + 1).last() == all[i as int]);
            }
            if query.test(&self.spells[i]) {
                let copy = Rc::new(self.spells[i].clone());
                out.push(copy);
                proof {
                    assert(out@.map_values(|s: Rc<Spell>| s@) =~= all.subrange(
                        0,
                        i as int + 1,
                    ).filter(pred));
                }
            } else {
                proof {
                    assert(out@.map_values(|s: Rc<Spell>| s@) =~= all.subrange(
                        0,
                        i as int + 1,
                    ).filter(pred));
                }
            }
            i = i + 1;
        }
        proof {
            assert(all.subrange(0, self.spells@.len() as int) =~= all);
        }
        out
    }
}

} // verus!
