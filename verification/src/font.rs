//! Named font handles backed by an external font parser.
//!
//! The parsed font itself is opaque to the rendering core: the core only
//! stores and hands out handles. Metrics and glyph rasterization are read
//! from the handle by the caller, outside the core.

use vstd::prelude::*;

use crate::error::RenderError;

verus! {

#[verifier::external_type_specification]
#[verifier::external_body]
pub struct ExFontArc(ab_glyph::FontArc);

/// Relies on the derived `Clone` of ab_glyph::FontArc: cloning shares the
/// same parsed font data (an atomically reference-counted handle), so the
/// clone equals the original.
pub assume_specification[ <ab_glyph::FontArc as Clone>::clone ](f: &ab_glyph::FontArc) -> (r:
    ab_glyph::FontArc)
    ensures
        r == *f,
;

/// Whether the bytes parse as a TrueType/OpenType font (the success of
/// `ttf_parser::Face::parse` at collection index 0, a function of the
/// bytes alone).
pub uninterp spec fn font_parses(data: Seq<u8>) -> bool;

/// Relies on ab_glyph::FontArc::try_from_slice: parses the byte slice as
/// a font via ttf_parser::Face::parse; success depends on the bytes
/// alone. The error is rendered to its message text.
#[verifier::external_body]
fn font_from_slice(data: &'static [u8]) -> (r: Result<ab_glyph::FontArc, String>)
    ensures
        r is Ok <==> font_parses(data@),
{
    ab_glyph::FontArc::try_from_slice(data).map_err(|e| format!("{e}"))
}

/// Relies on ab_glyph::FontArc::try_from_vec: parses the owned bytes as a
/// font via the same ttf_parser::Face::parse as the slice form; success
/// depends on the bytes alone. The error is rendered to its message text.
#[verifier::external_body]
fn font_from_vec(data: Vec<u8>) -> (r: Result<ab_glyph::FontArc, String>)
    ensures
        r is Ok <==> font_parses(data@),
{
    ab_glyph::FontArc::try_from_vec(data).map_err(|e| format!("{e}"))
}

/// A cheap-to-clone handle to a loaded font. The parsed font data is
/// shared and read-only.
#[derive(Debug, Clone)]
pub struct FontHandle(pub ab_glyph::FontArc);

impl FontHandle {
    /// Borrow the underlying parsed font for measurement and
    /// rasterization by an external collaborator.
    pub fn arc(&self) -> &ab_glyph::FontArc {
        &self.0
    }
}

/// Index of the latest entry of `names` that equals `name`, or -1 if
/// there is none.
pub open spec fn spec_find(names: Seq<Seq<char>>, name: Seq<char>) -> int
    decreases names.len(),
{
    if names.len() == 0 {
        -1
    } else if names.last() == name {
        names.len() - 1
    } else {
        spec_find(names.drop_last(), name)
    }
}

/// A just-registered name is the one lookups find: pushing a name makes
/// it the latest match, so after a successful load, `get` hands back
/// exactly the handle that the load stored and returned.
pub proof fn lemma_find_latest(names: Seq<Seq<char>>, name: Seq<char>)
    ensures
        spec_find(names.push(name), name) == names.len(),
{
    assert(names.push(name).last() == name);
}

/// Stores named fonts. Load fonts once at startup, then retrieve handles
/// by name. A later load under the same name shadows the earlier one:
/// lookups hand back the latest.
pub struct FontRegistry {
    names: Vec<String>,
    fonts: Vec<FontHandle>,
}

impl FontRegistry {
    /// The names under which fonts are registered, in registration order.
    pub closed spec fn spec_names(&self) -> Seq<Seq<char>> {
        self.names@.map_values(|n: String| n@)
    }

    /// The handles stored, in registration order, one per name.
    pub closed spec fn spec_fonts(&self) -> Seq<FontHandle> {
        self.fonts@
    }

    /// One handle is stored per name.
    pub open spec fn wf(&self) -> bool {
        self.spec_names().len() == self.spec_fonts().len()
    }

    /// Whether a font is registered under `name`.
    pub open spec fn has_font(&self, name: Seq<char>) -> bool {
        spec_find(self.spec_names(), name) >= 0
    }

    /// An empty registry.
    pub fn new() -> (r: Self)
        ensures
            r.wf(),
            r.spec_names() == Seq::<Seq<char>>::empty(),
            r.spec_fonts() == Seq::<FontHandle>::empty(),
    {
        let r = FontRegistry { names: Vec::new(), fonts: Vec::new() };
        proof {
            assert(r.spec_names() =~= Seq::<Seq<char>>::empty());
            assert(r.spec_fonts() =~= Seq::<FontHandle>::empty());
        }
        r
    }

    /// Register a font parsed from a static byte slice (e.g. embedded
    /// font data). Returns the handle just stored, or the parse error;
    /// the registry gains the name exactly when parsing succeeds.
    pub fn load_bytes(&mut self, name: &str, bytes: &'static [u8]) -> (r: Result<
        FontHandle,
        RenderError,
    >)
        requires
            old(self).wf(),
        ensures
            final(self).wf(),
            r is Ok <==> font_parses(bytes@),
            r matches Ok(h) ==> final(self).spec_names() == old(self).spec_names().push(name@)
                && final(self).spec_fonts() == old(self).spec_fonts().push(h),
            r is Err ==> final(self).spec_names() == old(self).spec_names() && final(
                self
            ).spec_fonts() == old(self).spec_fonts(),
            r is Err ==> r matches Err(RenderError::FontParse(_)),
    {
        match font_from_slice(bytes) {
            Ok(font) => {
                let ret = FontHandle(font.clone());
                self.names.push(name.to_owned());
                self.fonts.push(FontHandle(font));
                proof {
                    assert(self.spec_names() =~= old(self).spec_names().push(name@));
                }
                Ok(ret)
            },
            Err(message) => Err(RenderError::FontParse(message)),
        }
    }

    /// Register a font parsed from owned bytes (e.g. read from disk by
    /// the caller). Returns the handle just stored, or the parse error;
    /// the registry gains the name exactly when parsing succeeds.
    pub fn load_vec(&mut self, name: &str, bytes: Vec<u8>) -> (r: Result<FontHandle, RenderError>)
        requires
            old(self).wf(),
        ensures
            final(self).wf(),
            r is Ok <==> font_parses(bytes@),
            r matches Ok(h) ==> final(self).spec_names() == old(self).spec_names().push(name@)
                && final(self).spec_fonts() == old(self).spec_fonts().push(h),
            r is Err ==> final(self).spec_names() == old(self).spec_names() && final(
                self
            ).spec_fonts() == old(self).spec_fonts(),
            r is Err ==> r matches Err(RenderError::FontParse(_)),
    {
        let ghost data = bytes@;
        match font_from_vec(bytes) {
            Ok(font) => {
                let ret = FontHandle(font.clone());
                self.names.push(name.to_owned());
                self.fonts.push(FontHandle(font));
                proof {
                    assert(self.spec_names() =~= old(self).spec_names().push(name@));
                }
                Ok(ret)
            },
            Err(message) => Err(RenderError::FontParse(message)),
        }
    }

    /// Retrieve a previously registered font by name: the handle stored
    /// by the latest load under that name, exactly when the name is
    /// registered.
    pub fn get(&self, name: &str) -> (r: Option<FontHandle>)
        requires
            self.wf(),
        ensures
            r is Some <==> self.has_font(name@),
            r matches Some(h) ==> h == self.spec_fonts()[spec_find(self.spec_names(), name@)],
    {
        let key: String = name.to_owned();
        let mut i: usize = self.names.len();
        proof {
            assert(self.spec_names().take(i as int) =~= self.spec_names());
        }
        while i > 0
            invariant
                self.wf(),
                i <= self.spec_names().len(),
                key@ == name@,
                spec_find(self.spec_names(), name@) == spec_find(
                    self.spec_names().take(i as int),
                    name@,
                ),
            decreases i,
        {
            i = i - 1;
            proof {
                assert(self.spec_names().take(i + 1).drop_last() =~= self.spec_names().take(
                    i as int,
                ));
                assert(self.spec_names().take(i + 1).last() == self.spec_names()[i as int]);
            }
            if self.names[i] == key {
                proof {
                    assert(spec_find(self.spec_names().take(i + 1), name@) == i);
                }
                return Some(FontHandle(self.fonts[i].0.clone()));
            }
        }
        proof {
            assert(self.spec_names().take(0) =~= Seq::<Seq<char>>::empty());
        }
        None
    }

    /// Retrieve a font by name — the handle stored by the latest load
    /// under that name — or the not-found error naming it.
    pub fn require(&self, name: &str) -> (r: Result<FontHandle, RenderError>)
        requires
            self.wf(),
        ensures
            r is Ok <==> self.has_font(name@),
            r matches Ok(h) ==> h == self.spec_fonts()[spec_find(self.spec_names(), name@)],
            r is Err ==> (r matches Err(RenderError::FontNotFound(n)) && n@ == name@),
    {
        match self.get(name) {
            Some(handle) => Ok(handle),
            Option::None => Err(RenderError::FontNotFound(name.to_owned())),
        }
    }
}

} // verus!
