//! The catalog of fonts.
//!
//! Fonts are loaded into the catalog once. A shaper is made for faces that
//! are named by their family: by name, or as the serif or the sans-serif
//! family that the catalog was told to use.

use crate::sculpter::error::SculpterCreateError;
use std::collections::BTreeMap;
use ttf_parser::{Face, FaceParsingError};
use vstd::prelude::*;
use vstd::std_specs::btree::{axiom_increasing_seq_meaning, increasing_seq};
use vstd::std_specs::cmp::OrdSpec;

verus! {

#[verifier::external_type_specification]
#[verifier::external_body]
pub struct ExTtfFace<'a>(Face<'a>);

#[verifier::external_type_specification]
#[verifier::external_body]
pub struct ExFaceParsingError(FaceParsingError);

/// A font could not be loaded.
#[derive(Debug)]
pub enum SculpterLoadError {
    FaceParsing(FaceParsingError),
}

/// One entry of the name table of a face.
#[derive(Debug)]
pub struct FaceName {
    /// What the entry names: 1 is the family, 16 the typographic family.
    pub name_id: u16,
    /// Whether the text is in a Unicode encoding.
    pub unicode: bool,
    /// The text, where it could be read.
    pub text: Option<String>,
    /// The language of the entry, by its name.
    pub language: String,
}

/// One entry of a name table as a value.
pub struct NameEntry {
    pub name_id: u16,
    pub unicode: bool,
    pub text: Option<Seq<char>>,
    pub language: Seq<char>,
}

impl View for FaceName {
    type V = NameEntry;

    open spec fn view(&self) -> NameEntry {
        NameEntry {
            name_id: self.name_id,
            unicode: self.unicode,
            text: match self.text {
                Some(t) => Some(t@),
                None => None,
            },
            language: self.language@,
        }
    }
}

/// The entries of a name table as values.
pub open spec fn name_views(names: Seq<FaceName>) -> Seq<NameEntry> {
    names.map_values(|n: FaceName| n@)
}

/// The name table of the face at place `index` of the font `data`, as the
/// font parser reads it; `None` where it finds no face there that it can
/// read.
pub uninterp spec fn font_names(data: Seq<u8>, index: u32) -> Option<Seq<NameEntry>>;

/// The name table that a face holds.
pub uninterp spec fn face_name_table(face: Face<'_>) -> Seq<NameEntry>;

/// Calls `Face::parse` of ttf-parser, whose outcome depends on the bytes and
/// the place alone: it gives a face exactly where `font_names` is a table,
/// and that face holds this table.
#[verifier::external_body]
fn parse_face<'a>(data: &'a [u8], index: u32) -> (r: Result<Face<'a>, FaceParsingError>)
    ensures
        match r {
            Ok(face) => font_names(data@, index) == Some(face_name_table(face)),
            Err(_) => font_names(data@, index) is None,
        },
{
    Face::parse(data, index)
}

/// Calls `Face::names` of ttf-parser and hands out each entry of the name
/// table that the face holds, in the order of the table, with its text and
/// its language.
#[verifier::external_body]
fn face_names(face: &Face<'_>) -> (names: Vec<FaceName>)
    ensures
        name_views(names@) == face_name_table(*face),
{
    face.names().into_iter().map(
        |n|
            FaceName {
                name_id: n.name_id,
                unicode: n.is_unicode(),
                text: n.to_string(),
                language: format!("{:?}", n.language()),
            },
    ).collect()
}

/// The name id of the family of a face.
pub const FAMILY: u16 = 1;

/// The name id of the typographic family of a face.
pub const TYPOGRAPHIC_FAMILY: u16 = 16;

/// A family name with its language.
pub type FamilyView = (Seq<char>, Seq<char>);

/// The families among the first `k` names: the entries with the name id
/// `id` that are in Unicode and have a text.
pub open spec fn picked(names: Seq<NameEntry>, id: u16, k: int) -> Seq<FamilyView>
    decreases k,
{
    if k <= 0 {
        Seq::empty()
    } else {
        let n = names[k - 1];
        if n.name_id == id && n.unicode && n.text is Some {
            picked(names, id, k - 1).push((n.text->0, n.language))
        } else {
            picked(names, id, k - 1)
        }
    }
}

/// The first place at or behind `from` of a family in the language of the
/// United States.
pub open spec fn first_english(families: Seq<FamilyView>, from: int) -> Option<int>
    decreases families.len() - from,
{
    if from < 0 || from >= families.len() {
        None
    } else if families[from].1 == "English_UnitedStates"@ {
        Some(from)
    } else {
        first_english(families, from + 1)
    }
}

/// The families of a face: its typographic families, or its families where
/// it has none of those, with the first one in the language of the United
/// States, if there is one, in front, in exchange for the one that was there.
pub open spec fn families_of(names: Seq<NameEntry>) -> Seq<FamilyView> {
    let typographic = picked(names, TYPOGRAPHIC_FAMILY, names.len() as int);
    let families = if typographic.len() > 0 {
        typographic
    } else {
        picked(names, FAMILY, names.len() as int)
    };
    match first_english(families, 0) {
        Some(i) => families.update(0, families[i]).update(i, families[0]),
        None => families,
    }
}

/// The families as values.
pub open spec fn family_views(families: Seq<(String, String)>) -> Seq<FamilyView> {
    families.map_values(|f: (String, String)| (f.0@, f.1@))
}

fn pick(names: &Vec<FaceName>, id: u16) -> (r: Vec<(String, String)>)
    ensures
        family_views(r@) == picked(name_views(names@), id, names@.len() as int),
{
    let ghost table = name_views(names@);
    let mut r: Vec<(String, String)> = Vec::new();
    let mut k: usize = 0;
    assert(family_views(r@) =~= picked(table, id, 0));
    while k < names.len()
        invariant
            k <= names@.len(),
            table == name_views(names@),
            family_views(r@) == picked(table, id, k as int),
        decreases names@.len() - k,
    {
        let n = &names[k];
        assert(table[k as int] == names@[k as int]@);
        if n.name_id == id && n.unicode {
            if let Some(text) = &n.text {
                let ghost before = r@;
                let entry = (text.clone(), n.language.clone());
                r.push(entry);
                assert(family_views(r@) =~= family_views(before).push((text@, n.language@)));
            }
        }
        k = k + 1;
    }
    r
}

/// The families of a face with the name table `names`.
#[verifier::loop_isolation(false)]
pub fn collect_families(names: &Vec<FaceName>) -> (r: Vec<(String, String)>)
    ensures
        family_views(r@) == families_of(name_views(names@)),
{
    let mut families = pick(names, TYPOGRAPHIC_FAMILY);
    if families.len() == 0 {
        families = pick(names, FAMILY);
    }
    let ghost views = family_views(families@);
    let english = String::from_str("English_UnitedStates");
    let mut i: usize = 0;
    while i < families.len()
        invariant
            i <= families@.len(),
            views == family_views(families@),
            english@ == "English_UnitedStates"@,
            first_english(views, 0) == first_english(views, i as int),
        decreases families@.len() - i,
    {
        assert(views[i as int] == (families@[i as int].0@, families@[i as int].1@));
        if families[i].1 == english {
            if i != 0 {
                let at = families.remove(i);
                let front = families.remove(0);
                families.insert(0, at);
                families.insert(i, front);
                assert(family_views(families@) =~= views.update(0, views[i as int]).update(
                    i as int,
                    views[0],
                ));
            } else {
                assert(views.update(0, views[0]).update(0, views[0]) =~= views);
            }
            return families;
        }
        i = i + 1;
    }
    families
}

/// How a face is asked for.
#[derive(Debug, Clone, Copy)]
pub enum Family<'a> {
    Name(&'a str),
    Serif,
    SansSerif,
}

impl<'a> Default for Family<'a> {
    fn default() -> (f: Self)
        ensures
            f is Serif,
    {
        Family::Serif
    }
}

/// What is asked of a face.
#[derive(Debug)]
pub struct FontOptions<'a> {
    pub family: Family<'a>,
}

impl<'a> FontOptions<'a> {
    pub fn new(family: Family<'a>) -> (o: Self)
        ensures
            o.family == family,
    {
        Self { family }
    }
}

/// A font of the catalog.
#[derive(Debug)]
pub struct FontEntry<'a> {
    pub hash: u64,
    pub families: Vec<(String, String)>,
    pub data: &'a [u8],
    pub font_index: u32,
}

/// A font that is asked for the glyphs that other fonts lack.
#[derive(Debug)]
pub struct FontFallback<'a> {
    pub hash: u64,
    pub data: &'a [u8],
    pub font_index: u32,
}

/// Whether one of `families` has the name `name`.
pub open spec fn has_family(families: Seq<(String, String)>, name: Seq<char>) -> bool {
    exists|i: int| 0 <= i < families.len() && (#[trigger] families[i]).0@ == name
}

impl<'a> FontEntry<'a> {
    /// Whether the font is of the family `family_name`.
    pub fn has(&self, family_name: &str) -> (b: bool)
        ensures
            b == has_family(self.families@, family_name@),
    {
        let mut i: usize = 0;
        while i < self.families.len()
            invariant
                i <= self.families@.len(),
                forall|j: int| 0 <= j < i ==> (#[trigger] self.families@[j]).0@ != family_name@,
            decreases self.families@.len() - i,
        {
            if crate::planner::same_text(self.families[i].0.as_str(), family_name) {
                return true;
            }
            i = i + 1;
        }
        false
    }
}

/// Whether the font under the hash `k` is the first of the family `name`:
/// it is of that family, and no font of that family has a smaller hash.
pub open spec fn first_of_family<'a>(
    fonts: Map<u64, FontEntry<'a>>,
    name: Seq<char>,
    k: u64,
) -> bool {
    &&& fonts.contains_key(k)
    &&& has_family(fonts[k].families@, name)
    &&& forall|j: u64|
        fonts.contains_key(j) && has_family((#[trigger] fonts[j]).families@, name) ==> k <= j
}

/// Whether no font is of the family `name`.
pub open spec fn none_of_family<'a>(fonts: Map<u64, FontEntry<'a>>, name: Seq<char>) -> bool {
    forall|j: u64| fonts.contains_key(j) ==> !has_family((#[trigger] fonts[j]).families@, name)
}

/// In a walk through the fonts in the order of their hashes, the first font
/// of a family that is met is the first of that family.
proof fn lemma_first_met<'a>(
    fonts: Map<u64, FontEntry<'a>>,
    walk: Seq<(&u64, &FontEntry<'a>)>,
    at: int,
    name: Seq<char>,
)
    requires
        0 <= at < walk.len(),
        increasing_seq(walk.map_values(|kv: (&u64, &FontEntry<'a>)| *kv.0)),
        forall|i: int|
            0 <= i < walk.len() ==> fonts.contains_key(*(#[trigger] walk[i]).0) && fonts[*walk[i].0]
                == *walk[i].1,
        forall|k: u64| #[trigger] fonts.contains_key(k) ==> walk.contains((&k, &fonts[k])),
        forall|i: int| 0 <= i < at ==> !has_family((*(#[trigger] walk[i]).1).families@, name),
        has_family((*walk[at].1).families@, name),
    ensures
        first_of_family(fonts, name, *walk[at].0),
{
    let keys = walk.map_values(|kv: (&u64, &FontEntry<'a>)| *kv.0);
    axiom_increasing_seq_meaning::<u64>(keys);
    assert forall|j: u64|
        fonts.contains_key(j) && has_family((#[trigger] fonts[j]).families@, name) implies *walk[at].0
        <= j by {
        assert(walk.contains((&j, &fonts[j])));
        let p = choose|p: int| 0 <= p < walk.len() && walk[p] == (&j, &fonts[j]);
        if p > at {
            assert(keys[at].cmp_spec(&keys[p]) is Less);
        }
    }
}

/// The catalog of fonts.
pub struct Sculpter<'a> {
    fonts: BTreeMap<u64, FontEntry<'a>>,
    font_fallbacks: Vec<FontFallback<'a>>,
    family_serif: String,
    family_sans_serif: String,
}

impl<'a> Sculpter<'a> {
    /// The fonts, each under the hash that it was loaded with.
    pub closed spec fn font_map(&self) -> Map<u64, FontEntry<'a>> {
        self.fonts@
    }

    pub closed spec fn fallback_seq(&self) -> Seq<FontFallback<'a>> {
        self.font_fallbacks@
    }

    /// The family that stands for serif.
    pub closed spec fn serif(&self) -> Seq<char> {
        self.family_serif@
    }

    /// The family that stands for sans-serif.
    pub closed spec fn sans_serif(&self) -> Seq<char> {
        self.family_sans_serif@
    }

    /// The name of the family `family`.
    pub open spec fn family_name(&self, family: Family<'_>) -> Seq<char> {
        match family {
            Family::Name(s) => s@,
            Family::Serif => self.serif(),
            Family::SansSerif => self.sans_serif(),
        }
    }

    /// A catalog without fonts.
    pub fn new() -> (s: Self)
        ensures
            s.font_map() == Map::<u64, FontEntry<'a>>::empty(),
            s.fallback_seq().len() == 0,
            s.serif() == "EB Garamond"@,
            s.sans_serif() == "Open Sans"@,
    {
        Self {
            fonts: BTreeMap::new(),
            font_fallbacks: Vec::new(),
            family_serif: String::from_str("EB Garamond"),
            family_sans_serif: String::from_str("Open Sans"),
        }
    }

    pub fn set_serif_family(&mut self, name: String)
        ensures
            final(self).serif() == name@,
            final(self).sans_serif() == old(self).sans_serif(),
            final(self).font_map() == old(self).font_map(),
            final(self).fallback_seq() == old(self).fallback_seq(),
    {
        self.family_serif = name;
    }

    pub fn set_sans_serif_family(&mut self, name: String)
        ensures
            final(self).sans_serif() == name@,
            final(self).serif() == old(self).serif(),
            final(self).font_map() == old(self).font_map(),
            final(self).fallback_seq() == old(self).fallback_seq(),
    {
        self.family_sans_serif = name;
    }

    /// Puts the font `entry` into the catalog under its hash; a font with
    /// the same hash gives way to it.
    pub fn load(&mut self, entry: FontEntry<'a>)
        ensures
            final(self).font_map() == old(self).font_map().insert(entry.hash, entry),
            final(self).fallback_seq() == old(self).fallback_seq(),
            final(self).serif() == old(self).serif(),
            final(self).sans_serif() == old(self).sans_serif(),
    {
        self.fonts.insert(entry.hash, entry);
    }

    /// Adds a font that is asked for the glyphs that other fonts lack.
    pub fn load_fallback(&mut self, fallback: FontFallback<'a>)
        ensures
            final(self).fallback_seq() == old(self).fallback_seq().push(fallback),
            final(self).font_map() == old(self).font_map(),
            final(self).serif() == old(self).serif(),
            final(self).sans_serif() == old(self).sans_serif(),
    {
        self.font_fallbacks.push(fallback);
    }

    pub fn fallbacks(&self) -> (f: &Vec<FontFallback<'a>>)
        ensures
            f@ == self.fallback_seq(),
    {
        &self.font_fallbacks
    }

    /// The first font, in the order of the hashes, that is of the family
    /// `family`. A family of which the catalog has no font is an error.
    pub fn find_font(&self, family: &Family<'_>) -> (r: Result<&FontEntry<'a>, SculpterCreateError>)
        ensures
            match r {
                Ok(e) => exists|k: u64|
                    first_of_family(self.font_map(), self.family_name(*family), k) && *e
                        == #[trigger] self.font_map()[k],
                Err(e) => none_of_family(self.font_map(), self.family_name(*family))
                    && e->NoFontFound_0@ == self.family_name(*family),
            },
    {
        let family_name: &str = match family {
            Family::Name(s) => s,
            Family::Serif => self.family_serif.as_str(),
            Family::SansSerif => self.family_sans_serif.as_str(),
        };
        for kv in iter: self.fonts.iter()
            invariant
                family_name@ == self.family_name(*family),
                increasing_seq(iter.seq().map_values(|kv: (&u64, &FontEntry<'a>)| *kv.0)),
                forall|i: int|
                    0 <= i < iter.index() ==> !has_family(
                        (*(#[trigger] iter.seq()[i]).1).families@,
                        family_name@,
                    ),
        {
            if kv.1.has(family_name) {
                proof {
                    lemma_first_met(self.fonts@, iter.seq(), iter.index(), family_name@);
                    assert(self.font_map()[*kv.0] == *kv.1);
                }
                return Ok(kv.1);
            }
        }
        Err(SculpterCreateError::NoFontFound(String::from_str(family_name)))
    }
}

/// Reads the names of the first face of the font `data` and makes its
/// catalog entry: its families are those of the name table of that face.
///
/// There is an entry exactly where the font parser finds a first face in
/// `data` that it can read; a font without one is an error.
pub fn create_font_entry<'a>(data: &'a [u8], hash: u64) -> (r: Result<
    FontEntry<'a>,
    SculpterLoadError,
>)
    ensures
        match r {
            Ok(e) => {
                &&& font_names(data@, 0) is Some
                &&& e.hash == hash
                &&& e.data == data
                &&& e.font_index == 0
                &&& family_views(e.families@) == families_of(font_names(data@, 0)->Some_0)
            },
            Err(_) => font_names(data@, 0) is None,
        },
{
    match parse_face(data, 0) {
        Ok(face) => {
            let names = face_names(&face);
            let families = collect_families(&names);
            Ok(FontEntry { hash, families, data, font_index: 0 })
        },
        Err(e) => Err(SculpterLoadError::FaceParsing(e)),
    }
}

/// The entry of a font that is asked for the glyphs that other fonts lack.
pub fn create_font_fallback<'a>(data: &'a [u8], hash: u64) -> (f: FontFallback<'a>)
    ensures
        f.hash == hash,
        f.data == data,
        f.font_index == 0,
{
    FontFallback { hash, data, font_index: 0 }
}

} // verus!
