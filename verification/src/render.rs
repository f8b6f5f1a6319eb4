//! The rendering capability that backends implement, and a reference
//! implementation that writes plain markup.

use vstd::prelude::*;
use vstd::string::StringExecFns;
use crate::text::{append_decimal, append_fixed, decimal, fixed_decimal};
use crate::workload::{Row, Tile, Workload};

verus! {

/// What one call of a backend produced.
#[derive(Debug)]
pub struct Rendering {
    pub markup: String,
    /// Time from the start of the call until rendering was complete.
    pub elapsed_nanos: u64,
}

/// A backend failed while rendering.
#[derive(Debug)]
pub struct AdapterError {
    pub message: String,
}

/// One rendering backend under comparison.
///
/// An implementation reads the workload in order, leaves out and repeats
/// nothing, and measures its own call from start to completed output.
/// Nothing of that is assumed here: a run is verified for whatever an
/// adapter returns.
pub trait RenderAdapter {
    /// The name under which results are reported.
    fn name(&self) -> String;

    /// Renders the whole workload once.
    fn render(&mut self, workload: &Workload) -> Result<Rendering, AdapterError>;
}

/// The text of a list row.
pub open spec fn row_label(row: Row) -> Seq<char> {
    "SSR "@ + decimal(row.value as nat) + "-"@ + decimal(row.index as nat)
}

/// The markup of a list row.
pub open spec fn row_markup(row: Row) -> Seq<char> {
    "<div>"@ + row_label(row) + "</div>"@
}

/// The markup of rows, in order.
pub open spec fn rows_markup(rows: Seq<Row>) -> Seq<char>
    decreases rows.len(),
{
    if rows.len() == 0 {
        Seq::empty()
    } else {
        rows_markup(rows.drop_last()) + row_markup(rows.last())
    }
}

/// The markup of a tile.
pub open spec fn tile_markup(tile: Tile) -> Seq<char> {
    "<div class=\"tile\" style=\"left: "@ + fixed_decimal(tile.x as int) + "px; top: "@
        + fixed_decimal(tile.y as int) + "px;\"></div>"@
}

/// The markup of tiles, in order.
pub open spec fn tiles_markup(tiles: Seq<Tile>) -> Seq<char>
    decreases tiles.len(),
{
    if tiles.len() == 0 {
        Seq::empty()
    } else {
        tiles_markup(tiles.drop_last()) + tile_markup(tiles.last())
    }
}

/// The markup that the reference adapter writes for a workload: one
/// element per item, in workload order, inside one container.
pub open spec fn reference_markup(workload: Workload) -> Seq<char> {
    match workload {
        Workload::Tiles(tiles) => "<div id=\"wrapper\">"@ + tiles_markup(tiles@) + "</div>"@,
        Workload::Rows(rows) => "<main>"@ + rows_markup(rows@) + "</main>"@,
    }
}

/// Rendering keeps order and drops nothing: the markup of rows laid end
/// to end is the markup of the first followed by that of the second.
pub proof fn lemma_rows_markup_in_order(front: Seq<Row>, back: Seq<Row>)
    ensures
        rows_markup(front + back) == rows_markup(front) + rows_markup(back),
    decreases back.len(),
{
    if back.len() == 0 {
        assert(front + back =~= front);
        assert(rows_markup(front) + rows_markup(back) =~= rows_markup(front));
    } else {
        lemma_rows_markup_in_order(front, back.drop_last());
        assert((front + back).drop_last() =~= front + back.drop_last());
        assert((front + back).last() == back.last());
        assert(rows_markup(front + back) =~= rows_markup(front) + rows_markup(back));
    }
}

/// The same of tiles.
pub proof fn lemma_tiles_markup_in_order(front: Seq<Tile>, back: Seq<Tile>)
    ensures
        tiles_markup(front + back) == tiles_markup(front) + tiles_markup(back),
    decreases back.len(),
{
    if back.len() == 0 {
        assert(front + back =~= front);
        assert(tiles_markup(front) + tiles_markup(back) =~= tiles_markup(front));
    } else {
        lemma_tiles_markup_in_order(front, back.drop_last());
        assert((front + back).drop_last() =~= front + back.drop_last());
        assert((front + back).last() == back.last());
        assert(tiles_markup(front + back) =~= tiles_markup(front) + tiles_markup(back));
    }
}

/// Appends the text of a list row.
pub fn append_row_label(out: &mut String, row: &Row)
    ensures
        final(out)@ == old(out)@ + row_label(*row),
{
    out.append("SSR ");
    append_decimal(out, row.value as u64);
    out.append("-");
    append_decimal(out, row.index as u64);
    assert(out@ =~= old(out)@ + row_label(*row));
}

/// Writes the reference markup of a workload.
pub fn render_markup(workload: &Workload) -> (markup: String)
    ensures
        markup@ == reference_markup(*workload),
{
    let mut out = String::new();
    match workload {
        Workload::Tiles(tiles) => {
            out.append("<div id=\"wrapper\">");
            let ghost opened = out@;
            let mut i: usize = 0;
            while i < tiles.len()
                invariant
                    i <= tiles@.len(),
                    out@ == opened + tiles_markup(tiles@.subrange(0, i as int)),
                decreases tiles@.len() - i,
            {
                let ghost before = out@;
                out.append("<div class=\"tile\" style=\"left: ");
                append_fixed(&mut out, tiles[i].x);
                out.append("px; top: ");
                append_fixed(&mut out, tiles[i].y);
                out.append("px;\"></div>");
                proof {
                    let next = tiles@.subrange(0, i + 1);
                    assert(next.drop_last() =~= tiles@.subrange(0, i as int));
                    assert(next.last() == tiles@[i as int]);
                    assert(out@ =~= before + tile_markup(tiles@[i as int]));
                }
                i = i + 1;
            }
            out.append("</div>");
            assert(tiles@.subrange(0, tiles@.len() as int) =~= tiles@);
        },
        Workload::Rows(rows) => {
            out.append("<main>");
            let ghost opened = out@;
            let mut i: usize = 0;
            while i < rows.len()
                invariant
                    i <= rows@.len(),
                    out@ == opened + rows_markup(rows@.subrange(0, i as int)),
                decreases rows@.len() - i,
            {
                let ghost before = out@;
                out.append("<div>");
                append_row_label(&mut out, &rows[i]);
                out.append("</div>");
                proof {
                    let next = rows@.subrange(0, i + 1);
                    assert(next.drop_last() =~= rows@.subrange(0, i as int));
                    assert(next.last() == rows@[i as int]);
                    assert(out@ =~= before + row_markup(rows@[i as int]));
                }
                i = i + 1;
            }
            out.append("</main>");
            assert(rows@.subrange(0, rows@.len() as int) =~= rows@);
        },
    }
    assert(out@ =~= reference_markup(*workload));
    out
}

/// First value of the digest.
pub const DIGEST_OFFSET: u64 = 0xcbf2_9ce4_8422_2325;

/// Multiplier of the digest.
pub const DIGEST_PRIME: u64 = 0x0000_0100_0000_01b3;

/// A 64-bit digest of the output bytes: from [`DIGEST_OFFSET`], each byte
/// is mixed in by exclusive or and the sum multiplied by
/// [`DIGEST_PRIME`], modulo 2^64.
pub open spec fn digest(bytes: Seq<u8>) -> u64
    decreases bytes.len(),
{
    if bytes.len() == 0 {
        DIGEST_OFFSET
    } else {
        (digest(bytes.drop_last()) ^ (bytes.last() as u64)).wrapping_mul(DIGEST_PRIME)
    }
}

/// Computes [`digest`].
pub fn digest_of(bytes: &[u8]) -> (d: u64)
    ensures
        d == digest(bytes@),
{
    let mut d: u64 = DIGEST_OFFSET;
    let mut i: usize = 0;
    while i < bytes.len()
        invariant
            i <= bytes@.len(),
            d == digest(bytes@.subrange(0, i as int)),
        decreases bytes@.len() - i,
    {
        proof {
            let next = bytes@.subrange(0, i + 1);
            assert(next.drop_last() =~= bytes@.subrange(0, i as int));
            assert(next.last() == bytes@[i as int]);
        }
        d = (d ^ (bytes[i] as u64)).wrapping_mul(DIGEST_PRIME);
        i = i + 1;
    }
    assert(bytes@.subrange(0, bytes@.len() as int) =~= bytes@);
    d
}

/// `std::time::Instant`, a reading of the monotonic clock. It is carried
/// from one call to the next and never looked into.
#[verifier::external_type_specification]
#[verifier::external_body]
pub struct ExInstant(std::time::Instant);

/// `std::time::Instant::now`: a reading of the monotonic clock. Nothing
/// is claimed of it.
#[verifier::external_body]
fn clock_now() -> (now: std::time::Instant) {
    std::time::Instant::now()
}

/// `std::time::Instant::elapsed`: the time gone by since a reading.
/// Nothing is claimed of it.
#[verifier::external_body]
fn clock_elapsed(since: &std::time::Instant) -> (elapsed: std::time::Duration) {
    since.elapsed()
}

/// `std::time::Duration::as_nanos`: a duration in whole nanoseconds.
/// Nothing is claimed of it.
#[verifier::external_body]
fn duration_nanos(duration: &std::time::Duration) -> (nanos: u128) {
    duration.as_nanos()
}

/// The adapter that the library brings along: it writes
/// [`reference_markup`] and times itself on the monotonic clock.
#[derive(Debug)]
pub struct ReferenceAdapter {}

impl ReferenceAdapter {
    pub fn new() -> (adapter: ReferenceAdapter) {
        ReferenceAdapter {  }
    }
}

impl RenderAdapter for ReferenceAdapter {
    fn name(&self) -> (name: String)
        ensures
            name@ == "reference"@,
    {
        String::from_str("reference")
    }

    /// Never fails. A time beyond 64 bits of nanoseconds is reported as
    /// the largest value.
    fn render(&mut self, workload: &Workload) -> (result: Result<Rendering, AdapterError>)
        ensures
            result matches Ok(rendering) && rendering.markup@ == reference_markup(*workload),
    {
        let started = clock_now();
        let markup = render_markup(workload);
        let elapsed = clock_elapsed(&started);
        let nanos: u128 = duration_nanos(&elapsed);
        let elapsed_nanos: u64 = if nanos > u64::MAX as u128 {
            u64::MAX
        } else {
            nanos as u64
        };
        Ok(Rendering { markup, elapsed_nanos })
    }
}

} // verus!
