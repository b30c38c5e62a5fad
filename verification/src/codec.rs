use vstd::prelude::*;

use crate::model::{Document, DocumentView, Wpt};
use vstd::slice::slice_subrange;

verus! {

/// Whether the first bytes of `data` hold a byte-order mark, as the
/// unicode-bom crate classifies them.
pub uninterp spec fn bom_present(data: Seq<u8>) -> bool;

/// What the gpx crate's reader makes of `data`: the parsed document, or
/// nothing where it rejects the bytes. Parsing is a function of the bytes
/// alone.
pub uninterp spec fn gpx_parsed(data: Seq<u8>) -> Option<DocumentView>;

/// What the gpx crate's writer makes of a document: its serialized bytes, or
/// nothing where it refuses the value (an unknown format version). The
/// bytes are a function of the document's value alone.
pub uninterp spec fn gpx_bytes_of(d: DocumentView) -> Option<Seq<u8>>;

/// Relies on unicode_bom::Bom's `From<&[u8]>`: it classifies the leading
/// bytes as one of the known byte-order marks, or as none, from the bytes
/// alone.
#[verifier::external_body]
fn detect_bom(data: &[u8]) -> (r: bool)
    ensures
        r == bom_present(data@),
{
    !matches!(unicode_bom::Bom::from(data), unicode_bom::Bom::Null)
}

/// Relies on gpx::read: it parses XML bytes into a document,
/// deterministically. Each waypoint's name, description and symbol move into
/// the plain fields of [`Wpt`]; everything else stays opaque, in `point` and
/// `base`.
#[verifier::external_body]
fn parse_gpx(data: &[u8]) -> (r: Result<Document, gpx::errors::GpxError>)
    ensures
        r is Ok <==> gpx_parsed(data@) is Some,
        r is Ok ==> r->Ok_0@ == gpx_parsed(data@)->Some_0,
{
    let mut base = gpx::read(data)?;
    let points = core::mem::take(&mut base.waypoints);
    let waypoints = points
        .into_iter()
        .map(|mut p| {
            let name = p.name.take();
            let description = p.description.take();
            let symbol = p.symbol.take();
            Wpt { point: p, name, description, symbol }
        })
        .collect();
    Ok(Document { base, waypoints })
}

/// Relies on gpx::write: it serializes a document to XML bytes,
/// deterministically, refusing one whose format version is unknown. The
/// waypoints handed to it are rebuilt from the plain fields of [`Wpt`]
/// around their opaque remainder.
#[verifier::external_body]
pub(crate) fn serialize_gpx(doc: &Document) -> (r: Result<Vec<u8>, gpx::errors::GpxError>)
    ensures
        r is Ok <==> gpx_bytes_of(doc@) is Some,
        r is Ok ==> r->Ok_0@ == gpx_bytes_of(doc@)->Some_0,
{
    let mut base = doc.base.clone();
    base.waypoints = doc
        .waypoints
        .iter()
        .map(|w| {
            let mut p = w.point.clone();
            p.name = w.name.clone();
            p.description = w.description.clone();
            p.symbol = w.symbol.clone();
            p
        })
        .collect();
    let mut out = Vec::new();
    gpx::write(&base, &mut out)?;
    Ok(out)
}

/// Why loading failed.
#[derive(Debug)]
pub enum LoadError {
    /// A byte-order mark was detected, but the data ends before the 3 bytes
    /// that the loader skips for it.
    Truncated,
    /// The codec rejected the bytes; its diagnostic is carried along.
    Parse(gpx::errors::GpxError),
}

/// The bytes handed to the document parser: after a detected byte-order
/// mark exactly 3 bytes are skipped — whichever mark was seen — and without
/// one the bytes go as they are.
pub open spec fn parser_input(data: Seq<u8>) -> Seq<u8> {
    if bom_present(data) {
        data.skip(3)
    } else {
        data
    }
}

/// Load a GPX document from the bytes of a file: probe for a byte-order
/// mark, skip exactly 3 bytes when one is there, and parse the rest.
pub fn load_gpx(data: &[u8]) -> (r: Result<Document, LoadError>)
    ensures
        bom_present(data@) && data@.len() < 3 ==> r is Err && r->Err_0 is Truncated,
        (bom_present(data@) ==> data@.len() >= 3) ==> ({
            &&& r is Ok <==> gpx_parsed(parser_input(data@)) is Some
            &&& r is Ok ==> r->Ok_0@ == gpx_parsed(parser_input(data@))->Some_0
            &&& r is Err ==> r->Err_0 is Parse
        }),
{
    let skip: usize = if detect_bom(data) {
        3
    } else {
        0
    };
    if data.len() < skip {
        return Err(LoadError::Truncated);
    }
    let rest = slice_subrange(data, skip, data.len());
    proof {
        assert(rest@ =~= parser_input(data@));
    }
    match parse_gpx(rest) {
        Ok(d) => Ok(d),
        Err(e) => Err(LoadError::Parse(e)),
    }
}

} // verus!
