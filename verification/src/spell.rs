//! Spell records: the data one card is composed from.

use vstd::prelude::*;

use crate::rich_text::{rtrim_idx, skip_spaces};
use crate::strutil::{split_on, split_on_exec, str_eq};

verus! {

/// One spell record.
#[derive(Debug)]
pub struct Spell {
    pub name: String,
    pub level: u8,
    pub spell_type: SpellType,
    pub traits: Vec<String>,
    pub actions: Actions,
    pub properties: Vec<Property>,
    pub description: String,
    pub heightened: Option<String>,
    pub extras: Vec<String>,
    pub traditions: Traditions,
}

/// A named property line, such as an area, target or duration.
#[derive(Debug)]
pub struct Property {
    pub name: String,
    pub value: String,
}

/// The traditions a spell belongs to.
#[derive(Clone, Copy, PartialEq, Eq, Structural, Debug, Default)]
pub struct Traditions {
    pub is_arcane: bool,
    pub is_divine: bool,
    pub is_primal: bool,
    pub is_occult: bool,
}

#[derive(Clone, Copy, PartialEq, Eq, Structural, Debug)]
pub enum SpellType {
    Spell,
    Focus,
    Cantrip,
}

/// The action cost of a spell: a discrete count, a reaction, a free action,
/// a from-to range, or an arbitrary label.
#[derive(Debug)]
pub enum Actions {
    Number(u8),
    Reaction,
    FreeAction,
    Range(u8, u8),
    Other(String),
}

/// Model of [`Actions`].
pub enum ActionsV {
    Number(u8),
    Reaction,
    FreeAction,
    Range(u8, u8),
    Other(Seq<char>),
}

impl View for Actions {
    type V = ActionsV;

    open spec fn view(&self) -> ActionsV {
        match self {
            Actions::Number(n) => ActionsV::Number(*n),
            Actions::Reaction => ActionsV::Reaction,
            Actions::FreeAction => ActionsV::FreeAction,
            Actions::Range(a, b) => ActionsV::Range(*a, *b),
            Actions::Other(s) => ActionsV::Other(s@),
        }
    }
}

/// Model of a [`Property`].
pub struct PropertyV {
    pub name: Seq<char>,
    pub value: Seq<char>,
}

impl View for Property {
    type V = PropertyV;

    open spec fn view(&self) -> PropertyV {
        PropertyV { name: self.name@, value: self.value@ }
    }
}

/// Model of a [`Spell`].
pub struct SpellV {
    pub name: Seq<char>,
    pub level: u8,
    pub spell_type: SpellType,
    pub traits: Seq<Seq<char>>,
    pub actions: ActionsV,
    pub properties: Seq<PropertyV>,
    pub description: Seq<char>,
    pub heightened: Option<Seq<char>>,
    pub extras: Seq<Seq<char>>,
    pub traditions: Traditions,
}

impl View for Spell {
    type V = SpellV;

    open spec fn view(&self) -> SpellV {
        SpellV {
            name: self.name@,
            level: self.level,
            spell_type: self.spell_type,
            traits: self.traits@.map_values(|t: String| t@),
            actions: self.actions@,
            properties: self.properties@.map_values(|p: Property| p@),
            description: self.description@,
            heightened: match &self.heightened {
                Some(h) => Some(h@),
                None => None,
            },
            extras: self.extras@.map_values(|e: String| e@),
            traditions: self.traditions,
        }
    }
}

/// Clone a vector of strings, keeping each string's characters.
pub fn clone_strings(v: &Vec<String>) -> (r: Vec<String>)
    ensures
        r@.map_values(|t: String| t@) == v@.map_values(|t: String| t@),
{
    let mut out: Vec<String> = Vec::new();
    let mut i: usize = 0;
    while i < v.len()
        invariant
            0 <= i <= v@.len(),
            out@.len() == i,
            forall|j: int| 0 <= j < i ==> (#[trigger] out@[j])@ == v@[j]@,
        decreases v@.len() - i,
    {
        out.push(v[i].clone());
        i = i + 1;
    }
    proof {
        assert(out@.map_values(|t: String| t@) =~= v@.map_values(|t: String| t@));
    }
    out
}

impl Clone for Property {
    fn clone(&self) -> (r: Self)
        ensures
            r@ == self@,
    {
        Property { name: self.name.clone(), value: self.value.clone() }
    }
}

impl Clone for Actions {
    fn clone(&self) -> (r: Self)
        ensures
            r@ == self@,
    {
        match self {
            Actions::Number(n) => Actions::Number(*n),
            Actions::Reaction => Actions::Reaction,
            Actions::FreeAction => Actions::FreeAction,
            Actions::Range(a, b) => Actions::Range(*a, *b),
            Actions::Other(s) => Actions::Other(s.clone()),
        }
    }
}

impl Clone for Spell {
    fn clone(&self) -> (r: Self)
        ensures
            r@ == self@,
    {
        let mut properties: Vec<Property> = Vec::new();
        let mut i: usize = 0;
        while i < self.properties.len()
            invariant
                0 <= i <= self.properties@.len(),
                properties@.len() == i,
                forall|j: int| 0 <= j < i ==> (#[trigger] properties@[j])@ == self.properties@[j]@,
            decreases self.properties@.len() - i,
        {
            properties.push(self.properties[i].clone());
            i = i + 1;
        }
        let r = Spell {
            name: self.name.clone(),
            level: self.level,
            spell_type: self.spell_type,
            traits: clone_strings(&self.traits),
            actions: self.actions.clone(),
            properties,
            description: self.description.clone(),
            heightened: match &self.heightened {
                Some(h) => Some(h.clone()),
                None => None,
            },
            extras: clone_strings(&self.extras),
            traditions: self.traditions,
        };
        proof {
            assert(r@.traits =~= self@.traits);
            assert(r@.properties =~= self@.properties);
            assert(r@.extras =~= self@.extras);
        }
        r
    }
}

/// What [`SpellType::parse`] accepts.
pub open spec fn spell_type_of(s: Seq<char>) -> Option<SpellType> {
    if s == "spell"@ {
        Some(SpellType::Spell)
    } else if s == "focus"@ {
        Some(SpellType::Focus)
    } else if s == "cantrip"@ {
        Some(SpellType::Cantrip)
    } else {
        None
    }
}

impl SpellType {
    /// Parse a category label; anything but the three known labels is
    /// rejected.
    pub fn parse(name: &str) -> (r: Option<SpellType>)
        ensures
            r == spell_type_of(name@),
    {
        if str_eq(name, "spell") {
            Some(SpellType::Spell)
        } else if str_eq(name, "focus") {
            Some(SpellType::Focus)
        } else if str_eq(name, "cantrip") {
            Some(SpellType::Cantrip)
        } else {
            None
        }
    }
}

/// What [`Actions::parse`] yields: the known labels map to their action
/// cost, anything else is kept as an arbitrary label.
pub open spec fn actions_of(s: Seq<char>) -> ActionsV {
    if s == "Reaction"@ {
        ActionsV::Reaction
    } else if s == "Singe Action"@ {
        ActionsV::Number(1)
    } else if s == "Two Actions"@ {
        ActionsV::Number(2)
    } else if s == "Three Actions"@ {
        ActionsV::Number(3)
    } else {
        ActionsV::Other(s)
    }
}

/// The glyph (in the action-count font) an action cost renders as, if any.
pub open spec fn actions_glyph(a: ActionsV) -> Option<Seq<char>> {
    match a {
        ActionsV::Reaction => Some("5"@),
        ActionsV::FreeAction => Some("4"@),
        ActionsV::Number(n) => if n == 3 {
            Some("3"@)
        } else if n == 2 {
            Some("2"@)
        } else if n == 1 {
            Some("1"@)
        } else {
            None
        },
        _ => None,
    }
}

/// The glyph of a discrete action count, if it has one.
pub open spec fn number_glyph(n: u8) -> Option<Seq<char>> {
    if n == 1 {
        Some("1"@)
    } else if n == 2 {
        Some("2"@)
    } else if n == 3 {
        Some("3"@)
    } else {
        None
    }
}

impl Actions {
    /// Parse an action-cost label.
    pub fn parse(source: String) -> (r: Actions)
        ensures
            r@ == actions_of(source@),
    {
        if str_eq(source.as_str(), "Reaction") {
            Actions::Reaction
        } else if str_eq(source.as_str(), "Singe Action") {
            Actions::Number(1)
        } else if str_eq(source.as_str(), "Two Actions") {
            Actions::Number(2)
        } else if str_eq(source.as_str(), "Three Actions") {
            Actions::Number(3)
        } else {
            Actions::Other(source)
        }
    }

    /// The glyph this action cost renders as in the action-count font.
    pub fn as_str(&self) -> (r: Option<&'static str>)
        ensures
            r is Some <==> actions_glyph(self@) is Some,
            r is Some ==> r->0@ == actions_glyph(self@)->0,
    {
        match self {
            Actions::Reaction => Some("5"),
            Actions::FreeAction => Some("4"),
            Actions::Number(n) => {
                if *n == 3 {
                    Some("3")
                } else if *n == 2 {
                    Some("2")
                } else if *n == 1 {
                    Some("1")
                } else {
                    None
                }
            },
            _ => None,
        }
    }

    /// The glyph of a discrete action count.
    pub fn number_as_str(n: u8) -> (r: Option<&'static str>)
        ensures
            r is Some <==> number_glyph(n) is Some,
            r is Some ==> r->0@ == number_glyph(n)->0,
    {
        if n == 1 {
            Some("1")
        } else if n == 2 {
            Some("2")
        } else if n == 3 {
            Some("3")
        } else {
            None
        }
    }
}

/// Both ends trimmed of whitespace.
pub open spec fn trim_seq(t: Seq<char>) -> Seq<char> {
    if skip_spaces(t, 0) <= rtrim_idx(t) {
        t.subrange(skip_spaces(t, 0), rtrim_idx(t))
    } else {
        Seq::empty()
    }
}

/// Trim whitespace from both ends.
pub fn trim_str(s: &str) -> (r: String)
    ensures
        r@ == trim_seq(s@),
{
    let n = s.unicode_len();
    let mut lo: usize = 0;
    while lo < n && crate::rich_text::is_space_char(s.get_char(lo))
        invariant
            0 <= lo <= n,
            n as int == s@.len(),
            skip_spaces(s@, 0) == skip_spaces(s@, lo as int),
        decreases n - lo,
    {
        lo = lo + 1;
    }
    let mut hi: usize = n;
    proof {
        assert(s@.subrange(0, n as int) =~= s@);
    }
    while hi > 0 && crate::rich_text::is_space_char(s.get_char(hi - 1))
        invariant
            0 <= hi <= n,
            n as int == s@.len(),
            rtrim_idx(s@) == rtrim_idx(s@.subrange(0, hi as int)),
        decreases hi,
    {
        proof {
            assert(s@.subrange(0, hi as int).drop_last() =~= s@.subrange(0, hi as int - 1));
            assert(s@.subrange(0, hi as int).last() == s@[hi as int - 1]);
        }
        hi = hi - 1;
    }
    proof {
        if hi > 0 {
            assert(s@.subrange(0, hi as int).last() == s@[hi as int - 1]);
        }
    }
    if lo <= hi {
        s.substring_char(lo, hi).to_owned()
    } else {
        let empty = String::new();
        proof {
            assert(empty@ =~= trim_seq(s@));
        }
        empty
    }
}

/// The sections of a spell's markdown, separated by `---`: a leading part
/// that is discarded, the description, an optional heightened section, and
/// any further sections kept verbatim.
pub open spec fn sections_of(t: Seq<char>) -> Option<
    (Seq<char>, Option<Seq<char>>, Seq<Seq<char>>),
> {
    let ps = split_on(t, "---"@);
    if ps.len() >= 3 {
        Some((trim_seq(ps[1]), Some(trim_seq(ps[2])), ps.subrange(3, ps.len() as int)))
    } else if ps.len() == 2 {
        Some((ps[1], None, Seq::empty()))
    } else {
        None
    }
}

impl Spell {
    /// Split a spell's markdown into description, optional heightened text
    /// and extra sections.  `None` when the text has no `---` separator at
    /// all.
    pub fn parse_markdown(markdown: &str) -> (r: Option<(String, Option<String>, Vec<String>)>)
        ensures
            match r {
                Some((d, h, e)) => sections_of(markdown@) matches Some((ds, hs, es)) && d@ == ds
                    && (match (h, hs) {
                    (Some(x), Some(y)) => x@ == y,
                    (None, None) => true,
                    _ => false,
                }) && e@.map_values(|x: String| x@) == es,
                None => sections_of(markdown@) is None,
            },
    {
        let pieces = split_on_exec(markdown, "---");
        let ghost psv = pieces@.map_values(|p: String| p@);
        if pieces.len() >= 3 {
            let description = trim_str(pieces[1].as_str());
            let heightened = trim_str(pieces[2].as_str());
            let mut extras: Vec<String> = Vec::new();
            let mut i: usize = 3;
            while i < pieces.len()
                invariant
                    3 <= i <= pieces@.len(),
                    psv == pieces@.map_values(|p: String| p@),
                    psv.len() == pieces@.len(),
                    extras@.len() == i - 3,
                    forall|j: int| 0 <= j < i - 3 ==> (#[trigger] extras@[j])@ == psv[j + 3],
                decreases pieces@.len() - i,
            {
                extras.push(pieces[i].clone());
                i = i + 1;
            }
            proof {
                assert(extras@.map_values(|x: String| x@) =~= psv.subrange(3, psv.len() as int));
            }
            Some((description, Some(heightened), extras))
        } else if pieces.len() == 2 {
            let description = pieces[1].clone();
            let extras: Vec<String> = Vec::new();
            proof {
                assert(extras@.map_values(|x: String| x@) =~= Seq::<Seq<char>>::empty());
            }
            Some((description, None, extras))
        } else {
            None
        }
    }
}

} // verus!
