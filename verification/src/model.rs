use vstd::prelude::*;

verus! {

/// The GPX document type of the `gpx` codec crate. A value of it is opaque
/// here: it carries the parts of a document that this library never inspects
/// (format version, creator, metadata, tracks, routes) through the pipeline
/// unchanged.
#[verifier::external_type_specification]
#[verifier::external_body]
pub struct ExGpx(gpx::Gpx);

/// The waypoint type of the `gpx` codec crate, opaque here. It carries the
/// fields this library never inspects (coordinates, elevation, time, links,
/// and so on) through the pipeline unchanged.
#[verifier::external_type_specification]
#[verifier::external_body]
pub struct ExGpxWaypoint(gpx::Waypoint);

/// The error type of the `gpx` codec crate, opaque here.
#[verifier::external_type_specification]
#[verifier::external_body]
pub struct ExGpxError(gpx::errors::GpxError);

/// A point of interest. The textual fields that the pipeline reads and
/// rewrites (name, description, symbol) are held as plain values; everything
/// else stays inside `point` and is passed through verbatim.
pub struct Wpt {
    /// The waypoint as the codec saw it, minus the three modelled fields.
    pub point: gpx::Waypoint,
    /// Display name.
    pub name: Option<String>,
    /// Free-text description.
    pub description: Option<String>,
    /// Display symbol.
    pub symbol: Option<String>,
}

/// The mathematical value of a [`Wpt`]: its textual fields as character
/// sequences, beside the opaque remainder.
pub struct WptView {
    pub point: gpx::Waypoint,
    pub name: Option<Seq<char>>,
    pub description: Option<Seq<char>>,
    pub symbol: Option<Seq<char>>,
}

impl View for Wpt {
    type V = WptView;

    open spec fn view(&self) -> WptView {
        WptView {
            point: self.point,
            name: self.name.deep_view(),
            description: self.description.deep_view(),
            symbol: self.symbol.deep_view(),
        }
    }
}

impl DeepView for Wpt {
    type V = WptView;

    open spec fn deep_view(&self) -> WptView {
        self.view()
    }
}

/// A GPX document: an ordered collection of waypoints, beside the opaque
/// remainder of the file (version, creator, metadata, tracks, routes), which
/// every pipeline stage preserves.
pub struct Document {
    /// The document as the codec saw it, minus the modelled waypoints.
    pub base: gpx::Gpx,
    /// The waypoints, in file order.
    pub waypoints: Vec<Wpt>,
}

/// The mathematical value of a [`Document`].
pub struct DocumentView {
    pub base: gpx::Gpx,
    pub waypoints: Seq<WptView>,
}

impl View for Document {
    type V = DocumentView;

    open spec fn view(&self) -> DocumentView {
        DocumentView { base: self.base, waypoints: self.waypoints.deep_view() }
    }
}

/// The description of a waypoint, an absent one read as the empty text.
pub open spec fn desc_or_empty(w: WptView) -> Seq<char> {
    match w.description {
        Some(d) => d,
        None => Seq::empty(),
    }
}

/// Relies on the derived Clone of gpx::Waypoint: a field-by-field copy of
/// plain owned data, equal to the original.
#[verifier::external_body]
pub(crate) fn clone_point(p: &gpx::Waypoint) -> (r: gpx::Waypoint)
    ensures
        r == *p,
{
    p.clone()
}

/// Relies on the derived Clone of gpx::Gpx: a field-by-field copy of plain
/// owned data, equal to the original.
#[verifier::external_body]
pub(crate) fn clone_base(g: &gpx::Gpx) -> (r: gpx::Gpx)
    ensures
        r == *g,
{
    g.clone()
}

fn clone_opt_string(s: &Option<String>) -> (r: Option<String>)
    ensures
        r == *s,
{
    match s {
        Some(x) => Some(x.clone()),
        None => None,
    }
}

impl Wpt {
    /// An equal copy.
    pub fn duplicate(&self) -> (r: Wpt)
        ensures
            r == *self,
    {
        Wpt {
            point: clone_point(&self.point),
            name: clone_opt_string(&self.name),
            description: clone_opt_string(&self.description),
            symbol: clone_opt_string(&self.symbol),
        }
    }

    /// The description as text, the empty text when absent.
    pub fn description_text(&self) -> (r: &str)
        ensures
            r@ == desc_or_empty(self@),
    {
        match &self.description {
            Some(s) => s.as_str(),
            None => {
                proof {
                    reveal_strlit("");
                    assert(""@ =~= Seq::<char>::empty());
                }
                ""
            },
        }
    }
}

} // verus!
