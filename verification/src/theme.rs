//! Themes and the theme registry. A theme is built from the files of one
//! directory: each glyph file yields a digit and an embeddable reference,
//! byte-identical references within the theme collapse to one glyph
//! definition, and a later file for an already-seen digit wins. A theme with
//! no glyphs is dropped. The registry maps theme names to themes.

use vstd::prelude::*;
use crate::glyph::{spec_load_digit, load_digit};
use crate::assoc::{
    map_of, unique_names, lemma_map_of_domain, lemma_map_of_index, lemma_map_of_update,
    lemma_map_of_push, str_eq,
};

verus! {

/// One theme: glyph definitions (one embeddable reference per identifier,
/// identifiers being indices) and the digit index.
pub struct Theme {
    /// Embeddable references, one per glyph identifier.
    pub uris: Vec<String>,
    /// For each digit value `0`-`9`, the identifier of its glyph, if loaded.
    pub digits: Vec<Option<usize>>,
}

impl Theme {
    /// Ten digit slots, identifiers in range, and references pairwise
    /// distinct: byte-identical glyph files share one definition.
    pub open spec fn wf(&self) -> bool {
        &&& self.digits@.len() == 10
        &&& (forall|d: int|
            0 <= d < 10 && self.digits@[d] is Some ==> self.digits@[d]->Some_0
                < self.uris@.len())
        &&& (forall|i: int, j: int|
            0 <= i < j < self.uris@.len() ==> self.uris@[i]@ != self.uris@[j]@)
    }

    /// Some digit has a glyph.
    pub open spec fn has_glyphs(&self) -> bool {
        exists|d: int| 0 <= d < 10 && self.digits@[d] is Some
    }
}

/// Two digits whose glyphs carry the same reference share one identifier.
pub proof fn lemma_dedup_shared_definition(t: &Theme, d1: int, d2: int)
    requires
        t.wf(),
        0 <= d1 < 10,
        0 <= d2 < 10,
        t.digits@[d1] is Some,
        t.digits@[d2] is Some,
        t.uris@[t.digits@[d1]->Some_0 as int]@ == t.uris@[t.digits@[d2]->Some_0 as int]@,
    ensures
        t.digits@[d1] == t.digits@[d2],
{
}

/// The views of a vector of references.
pub open spec fn uri_views(uris: Seq<String>) -> Seq<Seq<char>> {
    uris.map_values(|s: String| s@)
}

/// Index of the first reference equal to `u`, if any.
pub open spec fn spec_find_uri(uris: Seq<Seq<char>>, u: Seq<char>) -> Option<int>
    decreases uris.len(),
{
    if uris.len() == 0 {
        None
    } else if uris[0] == u {
        Some(0int)
    } else {
        match spec_find_uri(uris.drop_first(), u) {
            None => None,
            Some(i) => Some(i + 1),
        }
    }
}

/// `spec_find_uri` finds exactly the first match.
pub proof fn lemma_find_uri(uris: Seq<Seq<char>>, u: Seq<char>)
    ensures
        match spec_find_uri(uris, u) {
            None => forall|j: int| 0 <= j < uris.len() ==> uris[j] != u,
            Some(i) => 0 <= i < uris.len() && uris[i] == u && (forall|j: int|
                0 <= j < i ==> uris[j] != u),
        },
    decreases uris.len(),
{
    if uris.len() > 0 && uris[0] != u {
        lemma_find_uri(uris.drop_first(), u);
        let rest = uris.drop_first();
        match spec_find_uri(rest, u) {
            None => {
                assert forall|j: int| 0 <= j < uris.len() implies uris[j] != u by {
                    if j > 0 {
                        assert(rest[j - 1] == uris[j]);
                    }
                }
            },
            Some(i) => {
                assert(rest[i] == uris[i + 1]);
                assert forall|j: int| 0 <= j < i + 1 implies uris[j] != u by {
                    if j > 0 {
                        assert(rest[j - 1] == uris[j]);
                    }
                }
            },
        }
    }
}

/// The theme state after taking in one loaded glyph (or a skipped file).
pub open spec fn spec_ingest(
    st: (Seq<Seq<char>>, Seq<Option<usize>>),
    g: Option<(u64, Seq<char>)>,
) -> (Seq<Seq<char>>, Seq<Option<usize>>) {
    match g {
        None => st,
        Some((d, uri)) => match spec_find_uri(st.0, uri) {
            Some(i) => (st.0, st.1.update(d as int, Some(i as usize))),
            None => (st.0.push(uri), st.1.update(d as int, Some(st.0.len() as usize))),
        },
    }
}

/// The theme state built from a file list, in order: references and digit
/// index, starting from no glyphs.
pub open spec fn spec_build(files: Seq<(String, Vec<u8>)>) -> (Seq<Seq<char>>, Seq<Option<usize>>)
    decreases files.len(),
{
    if files.len() == 0 {
        (Seq::<Seq<char>>::empty(), Seq::new(10, |i: int| None::<usize>))
    } else {
        spec_ingest(
            spec_build(files.drop_last()),
            spec_load_digit(files.last().0@, files.last().1@),
        )
    }
}

/// Index of the first stored reference whose text equals `u`, if any.
fn find_uri(uris: &Vec<String>, u: &str) -> (r: Option<usize>)
    ensures
        match r {
            None => spec_find_uri(uri_views(uris@), u@) is None,
            Some(i) => spec_find_uri(uri_views(uris@), u@) == Some(i as int),
        },
{
    let mut i: usize = 0;
    while i < uris.len()
        invariant
            i <= uris@.len(),
            forall|j: int| 0 <= j < i ==> uri_views(uris@)[j] != u@,
        decreases uris@.len() - i,
    {
        if str_eq(uris[i].as_str(), u) {
            proof {
                lemma_find_uri(uri_views(uris@), u@);
                assert(uri_views(uris@)[i as int] == uris@[i as int]@);
                let fv = spec_find_uri(uri_views(uris@), u@);
                if fv is None {
                    assert(uri_views(uris@)[i as int] != u@);
                    assert(false);
                } else {
                    let i0 = fv->Some_0;
                    if i0 < i as int {
                        assert(uri_views(uris@)[i0] == u@);
                        assert(false);
                    } else if i0 > i as int {
                        assert(uri_views(uris@)[i as int] != u@);
                        assert(false);
                    }
                }
            }
            return Some(i);
        }
        proof {
            assert(uri_views(uris@)[i as int] == uris@[i as int]@);
        }
        i = i + 1;
    }
    proof {
        lemma_find_uri(uri_views(uris@), u@);
        let fv = spec_find_uri(uri_views(uris@), u@);
        if fv is Some {
            assert(uri_views(uris@)[fv->Some_0] != u@);
            assert(false);
        }
    }
    None
}

/// Build one theme from the files of a theme directory: `files` holds each
/// file's base name and content. Returns the theme, or nothing when no file
/// yields a glyph.
pub fn load_theme(files: &Vec<(String, Vec<u8>)>) -> (r: Option<Theme>)
    requires
        forall|k: int| 0 <= k < files@.len() ==> files@[k].1@.len() <= usize::MAX as nat / 2,
    ensures
        match r {
            Some(t) => {
                &&& t.wf()
                &&& t.has_glyphs()
                &&& uri_views(t.uris@) == spec_build(files@).0
                &&& t.digits@ == spec_build(files@).1
            },
            None => forall|d: int| 0 <= d < 10 ==> spec_build(files@).1[d] is None,
        },
{
    let mut uris: Vec<String> = Vec::new();
    let mut digits: Vec<Option<usize>> = Vec::new();
    let mut z: usize = 0;
    while z < 10
        invariant
            z <= 10,
            digits@ =~= Seq::new(z as nat, |i: int| None::<usize>),
        decreases 10 - z,
    {
        digits.push(None);
        z = z + 1;
        proof {
            assert(digits@ =~= Seq::new(z as nat, |i: int| None::<usize>));
        }
    }
    proof {
        assert(uri_views(uris@) =~= spec_build(files@.take(0)).0);
        assert(digits@ =~= spec_build(files@.take(0)).1);
    }
    let mut k: usize = 0;
    while k < files.len()
        invariant
            k <= files@.len(),
            forall|j: int| 0 <= j < files@.len() ==> files@[j].1@.len() <= usize::MAX as nat / 2,
            uri_views(uris@) == spec_build(files@.take(k as int)).0,
            digits@ == spec_build(files@.take(k as int)).1,
            digits@.len() == 10,
            forall|d: int|
                0 <= d < 10 && digits@[d] is Some ==> digits@[d]->Some_0 < uris@.len(),
            forall|i: int, j: int| 0 <= i < j < uris@.len() ==> uris@[i]@ != uris@[j]@,
        decreases files@.len() - k,
    {
        let name = &files[k].0;
        let bytes = &files[k].1;
        let ghost st0 = (uri_views(uris@), digits@);
        let ghost g = spec_load_digit(name@, bytes@);
        match load_digit(name.as_str(), bytes) {
            None => {},
            Some((d, uri)) => {
                match find_uri(&uris, uri.as_str()) {
                    Some(id) => {
                        proof {
                            lemma_find_uri(uri_views(uris@), uri@);
                        }
                        digits[d as usize] = Some(id);
                        proof {
                            assert(digits@ =~= spec_ingest(st0, g).1);
                        }
                    },
                    None => {
                        proof {
                            lemma_find_uri(uri_views(uris@), uri@);
                        }
                        let id = uris.len();
                        let ghost u = uri@;
                        uris.push(uri);
                        digits[d as usize] = Some(id);
                        proof {
                            assert(uri_views(uris@) =~= st0.0.push(u));
                            assert(digits@ =~= spec_ingest(st0, g).1);
                            assert forall|i: int, j: int|
                                0 <= i < j < uris@.len() implies uris@[i]@ != uris@[j]@ by {
                                if j == uris@.len() - 1 {
                                    assert(st0.0[i] == uris@[i]@);
                                }
                            }
                        }
                    },
                }
            },
        }
        k = k + 1;
        proof {
            assert(files@.take(k as int).drop_last() =~= files@.take(k as int - 1));
            assert(files@.take(k as int).last() == files@[k as int - 1]);
            assert(spec_build(files@.take(k as int)) == spec_ingest(st0, g));
        }
    }
    proof {
        assert(files@.take(files@.len() as int) =~= files@);
    }
    let mut any: bool = false;
    let mut d: usize = 0;
    while d < 10
        invariant
            d <= 10,
            digits@.len() == 10,
            any == exists|e: int| 0 <= e < d && digits@[e] is Some,
        decreases 10 - d,
    {
        if digits[d].is_some() {
            any = true;
            proof {
                assert(digits@[d as int] is Some);
            }
        }
        d = d + 1;
    }
    if any {
        Some(Theme { uris, digits })
    } else {
        None
    }
}

/// The process-wide collection of themes, keyed by theme name; built once at
/// startup, read-only afterwards.
pub struct Registry {
    /// Named themes, names pairwise distinct.
    pub entries: Vec<(String, Theme)>,
}

impl View for Registry {
    type V = Map<Seq<char>, Theme>;

    open spec fn view(&self) -> Map<Seq<char>, Theme> {
        map_of(self.entries@)
    }
}

impl Registry {
    /// Names are pairwise distinct, and every registered theme is well
    /// formed and has at least one glyph.
    pub open spec fn wf(&self) -> bool {
        &&& unique_names(self.entries@)
        &&& (forall|j: int|
            0 <= j < self.entries@.len() ==> #[trigger] self.entries@[j].1.wf()
                && self.entries@[j].1.has_glyphs())
    }

    /// An empty registry.
    pub fn new() -> (r: Registry)
        ensures
            r.wf(),
            r@ == Map::<Seq<char>, Theme>::empty(),
            r.entries@.len() == 0,
    {
        Registry { entries: Vec::new() }
    }

    /// Index of the entry that holds `name`, if any.
    fn find(&self, name: &str) -> (r: Option<usize>)
        requires
            self.wf(),
        ensures
            match r {
                None => !self@.contains_key(name@),
                Some(i) => i < self.entries@.len() && self.entries@[i as int].0@ == name@,
            },
    {
        let mut i: usize = 0;
        while i < self.entries.len()
            invariant
                i <= self.entries@.len(),
                forall|k: int| 0 <= k < i ==> self.entries@[k].0@ != name@,
            decreases self.entries@.len() - i,
        {
            if str_eq(self.entries[i].0.as_str(), name) {
                return Some(i);
            }
            i = i + 1;
        }
        proof {
            lemma_map_of_domain(self.entries@, name@);
        }
        None
    }

    /// Register a theme under a name; a later registration of the same name
    /// wins.
    pub fn insert(&mut self, name: String, t: Theme)
        requires
            old(self).wf(),
            t.wf(),
            t.has_glyphs(),
        ensures
            final(self).wf(),
            final(self)@ == old(self)@.insert(name@, t),
            final(self).entries@.len() >= 1,
    {
        match self.find(name.as_str()) {
            Some(i) => {
                let ghost entries0 = self.entries@;
                let ghost p = (name, t);
                self.entries[i] = (name, t);
                proof {
                    lemma_map_of_update(entries0, i as int, p);
                    assert forall|j: int|
                        0 <= j < self.entries@.len() implies #[trigger] self.entries@[j].1.wf()
                        && self.entries@[j].1.has_glyphs() by {
                        if j != i as int {
                            assert(self.entries@[j] == entries0[j]);
                        }
                    }
                }
            },
            None => {
                proof {
                    lemma_map_of_domain(self.entries@, name@);
                    assert(forall|j: int|
                        0 <= j < self.entries@.len() ==> self.entries@[j].0@ != name@);
                }
                let ghost entries0 = self.entries@;
                let ghost p = (name, t);
                self.entries.push((name, t));
                proof {
                    lemma_map_of_push(entries0, p);
                    assert(unique_names(self.entries@));
                    assert forall|j: int|
                        0 <= j < self.entries@.len() implies #[trigger] self.entries@[j].1.wf()
                        && self.entries@[j].1.has_glyphs() by {
                        if j < entries0.len() {
                            assert(self.entries@[j] == entries0[j]);
                        }
                    }
                }
            },
        }
    }

    /// The theme registered under `name`, if any.
    pub fn get(&self, name: &str) -> (r: Option<&Theme>)
        requires
            self.wf(),
        ensures
            match r {
                None => !self@.contains_key(name@),
                Some(t) => self@.contains_key(name@) && *t == self@[name@] && t.wf(),
            },
    {
        match self.find(name) {
            Some(i) => {
                proof {
                    lemma_map_of_index(self.entries@, i as int);
                }
                Some(&self.entries[i].1)
            },
            None => None,
        }
    }

    /// What theme a request resolves to: the requested key when registered,
    /// else the configured default, else the first registered theme, else
    /// nothing (only when the registry is empty).
    pub open spec fn spec_resolve(&self, requested: Option<Seq<char>>, default: Seq<char>) -> Option<
        Theme,
    > {
        if requested is Some && self@.contains_key(requested->Some_0) {
            Some(self@[requested->Some_0])
        } else if self@.contains_key(default) {
            Some(self@[default])
        } else if self.entries@.len() > 0 {
            Some(self.entries@[0].1)
        } else {
            None
        }
    }

    /// Resolve a request's theme.
    pub fn resolve(&self, requested: Option<&str>, default: &str) -> (r: Option<&Theme>)
        requires
            self.wf(),
        ensures
            ({
                let req = match requested {
                    Some(s) => Some(s@),
                    None => None,
                };
                match r {
                    None => self.spec_resolve(req, default@) is None && self.entries@.len() == 0,
                    Some(t) => self.spec_resolve(req, default@) == Some(*t) && t.wf(),
                }
            }),
    {
        if let Some(key) = requested {
            if let Some(t) = self.get(key) {
                return Some(t);
            }
        }
        if let Some(t) = self.get(default) {
            return Some(t);
        }
        if self.entries.len() > 0 {
            proof {
                assert(self.entries@[0].1.wf());
            }
            return Some(&self.entries[0].1);
        }
        None
    }
}

/// The themes a scan of theme directories yields, as abstract states: name to
/// (references, digit index); a directory whose files yield no glyph is
/// dropped.
pub open spec fn spec_theme_map(dirs: Seq<(String, Vec<(String, Vec<u8>)>)>) -> Map<
    Seq<char>,
    (Seq<Seq<char>>, Seq<Option<usize>>),
>
    decreases dirs.len(),
{
    if dirs.len() == 0 {
        Map::empty()
    } else {
        let rest = spec_theme_map(dirs.drop_last());
        let st = spec_build(dirs.last().1@);
        if exists|d: int| 0 <= d < 10 && st.1[d] is Some {
            rest.insert(dirs.last().0@, st)
        } else {
            rest
        }
    }
}

/// Build the registry from scanned theme directories: `dirs` holds each
/// directory's name and its files (base name and content). A later directory
/// of the same name wins.
pub fn load_themes(dirs: &Vec<(String, Vec<(String, Vec<u8>)>)>) -> (r: Registry)
    requires
        forall|k: int, j: int|
            0 <= k < dirs@.len() && 0 <= j < dirs@[k].1@.len() ==> dirs@[k].1@[j].1@.len()
                <= usize::MAX as nat / 2,
    ensures
        r.wf(),
        r@.dom() == spec_theme_map(dirs@).dom(),
        forall|n: Seq<char>|
            r@.contains_key(n) ==> (uri_views(r@[n].uris@), r@[n].digits@) == spec_theme_map(
                dirs@,
            )[n],
{
    let mut r = Registry::new();
    let mut k: usize = 0;
    proof {
        assert(r@.dom() =~= spec_theme_map(dirs@.take(0)).dom());
    }
    while k < dirs.len()
        invariant
            k <= dirs@.len(),
            forall|a: int, j: int|
                0 <= a < dirs@.len() && 0 <= j < dirs@[a].1@.len() ==> dirs@[a].1@[j].1@.len()
                    <= usize::MAX as nat / 2,
            r.wf(),
            r@.dom() =~= spec_theme_map(dirs@.take(k as int)).dom(),
            forall|n: Seq<char>|
                r@.contains_key(n) ==> (uri_views(r@[n].uris@), r@[n].digits@) == spec_theme_map(
                    dirs@.take(k as int),
                )[n],
        decreases dirs@.len() - k,
    {
        let ghost m0 = r@;
        let name = &dirs[k].0;
        let files = &dirs[k].1;
        proof {
            assert(forall|j: int|
                0 <= j < files@.len() ==> files@[j].1@.len() <= usize::MAX as nat / 2);
        }
        match load_theme(files) {
            Some(t) => {
                r.insert(name.clone(), t);
            },
            None => {},
        }
        k = k + 1;
        proof {
            assert(dirs@.take(k as int).drop_last() =~= dirs@.take(k as int - 1));
            assert(dirs@.take(k as int).last() == dirs@[k as int - 1]);
            assert(r@.dom() =~= spec_theme_map(dirs@.take(k as int)).dom());
        }
    }
    proof {
        assert(dirs@.take(dirs@.len() as int) =~= dirs@);
    }
    r
}

} // verus!
