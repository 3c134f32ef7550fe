//! Office and PDF documents: archive limits, slide and sheet text, and the
//! gates in front of the legacy-format and PDF parsers.
use vstd::prelude::*;
use crate::engine::extractor::markup::{clean, clean_spec};
use crate::engine::extractor::MAX_EXTRACT_BYTES;
use crate::engine::searcher::views_of;
use crate::text::{lemma_encode_concat, chars_of, ends_with, push_char, push_str, starts_with, trim_range, trim_ws, utf8};

verus! {

/// Largest total of declared uncompressed sizes accepted in one archive
/// (100 MiB): a zip bomb is rejected before anything is decompressed.
pub const MAX_ARCHIVE_TOTAL_BYTES: u64 = 104_857_600;

/// Largest PDF or legacy OLE (`.wps`/`.dps`) file handed to its parser
/// (20 MiB): those parsers hold the whole expanded document in memory.
pub const MAX_LEGACY_FILE_BYTES: u64 = 20_971_520;

/// What a cheap look at a file before parsing it found.
pub enum ArchiveProbe {
    /// A zip archive, with the total of its entries' declared uncompressed
    /// sizes (saturating).
    Zip(u64),
    /// Not a zip archive (for instance a legacy OLE workbook).
    NotZip,
}

/// The sum of `s`.
pub open spec fn sum_of(s: Seq<u64>) -> int
    decreases s.len(),
{
    if s.len() == 0 {
        0
    } else {
        sum_of(s.drop_last()) + s.last()
    }
}

/// The total of the declared entry sizes, saturating at `u64::MAX`.
pub fn declared_total(sizes: &[u64]) -> (t: u64)
    ensures
        t == (if sum_of(sizes@) < u64::MAX {
            sum_of(sizes@)
        } else {
            u64::MAX as int
        }),
{
    let mut total: u64 = 0;
    let mut i: usize = 0;
    while i < sizes.len()
        invariant
            i <= sizes.len(),
            total == (if sum_of(sizes@.take(i as int)) < u64::MAX {
                sum_of(sizes@.take(i as int))
            } else {
                u64::MAX as int
            }),
        decreases sizes.len() - i,
    {
        proof {
            assert(sizes@.take(i + 1).drop_last() =~= sizes@.take(i as int));
            assert(sum_of(sizes@.take(i as int)) >= 0) by {
                lemma_sum_nonneg(sizes@.take(i as int));
            }
        }
        total = total.saturating_add(sizes[i]);
        i = i + 1;
    }
    proof {
        assert(sizes@.take(i as int) =~= sizes@);
    }
    total
}

proof fn lemma_sum_nonneg(s: Seq<u64>)
    ensures
        sum_of(s) >= 0,
    decreases s.len(),
{
    if s.len() > 0 {
        lemma_sum_nonneg(s.drop_last());
    }
}

/// Whether a file may go on to its parser: a zip archive only when its
/// declared total is within [`MAX_ARCHIVE_TOTAL_BYTES`], any other file
/// always, a file that could not be opened never.
pub fn archive_within_limits(probe: Option<ArchiveProbe>) -> (ok: bool)
    ensures
        ok == match probe {
            Some(ArchiveProbe::Zip(total)) => total <= MAX_ARCHIVE_TOTAL_BYTES,
            Some(ArchiveProbe::NotZip) => true,
            None => false,
        },
{
    match probe {
        Some(ArchiveProbe::Zip(total)) => total <= MAX_ARCHIVE_TOTAL_BYTES,
        Some(ArchiveProbe::NotZip) => true,
        None => false,
    }
}

/// A decompressed archive entry is kept only when it is within
/// [`MAX_EXTRACT_BYTES`].
pub fn entry_within_cap(xml: String) -> (r: Option<String>)
    ensures
        r == (if utf8(xml@).len() > MAX_EXTRACT_BYTES {
            None
        } else {
            Some(xml)
        }),
{
    let n = xml.as_str().as_bytes().len();
    if n as u64 > MAX_EXTRACT_BYTES {
        None
    } else {
        Some(xml)
    }
}

/// A slide of a PowerPoint archive: `ppt/slides/slide*.xml`.
pub open spec fn is_slide(name: Seq<char>) -> bool {
    let p = "ppt/slides/slide"@;
    let x = ".xml"@;
    &&& p.len() <= name.len() && name.take(p.len() as int) == p
    &&& x.len() <= name.len() && name.skip(name.len() - x.len()) == x
}

/// Whether the archive entry `name` is a slide.
pub fn is_slide_entry(name: &str) -> (b: bool)
    ensures
        b == is_slide(name@),
{
    starts_with(name, "ppt/slides/slide") && ends_with(name, ".xml")
}

/// The total UTF-8 size of `chunks`.
pub open spec fn bytes_total(chunks: Seq<Seq<char>>) -> int
    decreases chunks.len(),
{
    if chunks.len() == 0 {
        0
    } else {
        bytes_total(chunks.drop_last()) + utf8(chunks.last()).len()
    }
}

/// `chunks` joined with line breaks.
pub open spec fn join_lines(chunks: Seq<Seq<char>>) -> Seq<char>
    decreases chunks.len(),
{
    if chunks.len() == 0 {
        Seq::empty()
    } else if chunks.len() == 1 {
        chunks[0]
    } else {
        join_lines(chunks.drop_last()) + seq!['\n'] + chunks.last()
    }
}

/// The text of a presentation from its slides' XML, in archive order:
/// nothing when the slides together exceed [`MAX_EXTRACT_BYTES`], else the
/// slides joined with line breaks and cleaned.
pub open spec fn pptx_spec(chunks: Seq<Seq<char>>) -> Option<Seq<char>> {
    if bytes_total(chunks) > MAX_EXTRACT_BYTES {
        None
    } else {
        clean_spec(join_lines(chunks))
    }
}

proof fn lemma_bytes_total_mono(chunks: Seq<Seq<char>>, i: int)
    requires
        0 <= i <= chunks.len(),
    ensures
        0 <= bytes_total(chunks.take(i)) <= bytes_total(chunks),
    decreases chunks.len() - i,
{
    if i < chunks.len() {
        lemma_bytes_total_mono(chunks, i + 1);
        assert(chunks.take(i + 1).drop_last() =~= chunks.take(i));
    } else {
        assert(chunks.take(i) =~= chunks);
    }
    lemma_bytes_total_nonneg(chunks.take(i));
}

proof fn lemma_bytes_total_nonneg(chunks: Seq<Seq<char>>)
    ensures
        bytes_total(chunks) >= 0,
    decreases chunks.len(),
{
    if chunks.len() > 0 {
        lemma_bytes_total_nonneg(chunks.drop_last());
    }
}

/// Plain text of a presentation from the XML of its slides.
pub fn pptx_text(chunks: &[String]) -> (r: Option<String>)
    ensures
        r matches Some(t) ==> pptx_spec(views_of(chunks@)) == Some(t@),
        r is None ==> pptx_spec(views_of(chunks@)) is None,
{
    let ghost cs = views_of(chunks@);
    let mut total: u64 = 0;
    let mut joined = String::new();
    let mut i: usize = 0;
    while i < chunks.len()
        invariant
            i <= chunks.len(),
            cs == views_of(chunks@),
            total == bytes_total(cs.take(i as int)),
            total <= MAX_EXTRACT_BYTES,
            joined@ == join_lines(cs.take(i as int)),
        decreases chunks.len() - i,
    {
        let n = chunks[i].as_str().as_bytes().len();
        proof {
            assert(cs.take(i + 1).drop_last() =~= cs.take(i as int));
            assert(cs.take(i + 1).last() == chunks@[i as int]@);
        }
        if n as u64 > MAX_EXTRACT_BYTES - total {
            proof {
                lemma_bytes_total_mono(cs, i + 1);
            }
            return None;
        }
        total = total + n as u64;
        if i > 0 {
            push_char(&mut joined, '\n');
        }
        push_str(&mut joined, chunks[i].as_str());
        i = i + 1;
        proof {
            if i == 1 {
                assert(joined@ =~= join_lines(cs.take(i as int)));
            } else {
                assert(joined@ =~= join_lines(cs.take(i as int)));
            }
        }
    }
    proof {
        assert(cs.take(i as int) =~= cs);
    }
    clean(joined.as_str())
}

/// `cells` joined with single spaces.
pub open spec fn join_cells(cells: Seq<Seq<char>>) -> Seq<char>
    decreases cells.len(),
{
    if cells.len() == 0 {
        Seq::empty()
    } else if cells.len() == 1 {
        cells[0]
    } else {
        join_cells(cells.drop_last()) + seq![' '] + cells.last()
    }
}

/// Append one spreadsheet row: its cells' text joined with spaces, then a
/// line break.
pub fn push_row(out: &mut String, cells: &[String])
    ensures
        final(out)@ == old(out)@ + join_cells(views_of(cells@)) + seq!['\n'],
{
    let ghost cs = views_of(cells@);
    let ghost start = out@;
    let mut i: usize = 0;
    while i < cells.len()
        invariant
            i <= cells.len(),
            cs == views_of(cells@),
            out@ == start + join_cells(cs.take(i as int)),
        decreases cells.len() - i,
    {
        if i > 0 {
            push_char(out, ' ');
        }
        push_str(out, cells[i].as_str());
        i = i + 1;
        proof {
            assert(cs.take(i as int).drop_last() =~= cs.take(i - 1));
            assert(cs.take(i as int).last() == cells@[i - 1]@);
            if i == 1 {
                assert(cs.take(1) =~= seq![cs[0]]);
            }
            assert(out@ =~= start + join_cells(cs.take(i as int)));
        }
    }
    push_char(out, '\n');
    proof {
        assert(cs.take(i as int) =~= cs);
    }
}

/// Whether the sheet text has reached [`MAX_EXTRACT_BYTES`], after which no
/// further rows are read.
pub fn sheet_text_full(out: &str) -> (b: bool)
    ensures
        b == (utf8(out@).len() >= MAX_EXTRACT_BYTES),
{
    out.as_bytes().len() as u64 >= MAX_EXTRACT_BYTES
}

/// Sheet text after appending `rows` to `out`, one line per row, until the
/// text reaches [`MAX_EXTRACT_BYTES`]: rows met once it has are not read.
pub open spec fn rows_appended(out: Seq<char>, rows: Seq<Seq<Seq<char>>>) -> Seq<char>
    decreases rows.len(),
{
    if rows.len() == 0 || utf8(out).len() >= MAX_EXTRACT_BYTES {
        out
    } else {
        rows_appended(out + join_cells(rows[0]) + seq!['\n'], rows.drop_first())
    }
}

/// Append spreadsheet rows to the sheet text, stopping at the first row
/// met once the text is full. Returns whether the text is full, so that no
/// later row is wanted.
pub fn push_rows(out: &mut String, rows: &[Vec<String>]) -> (full: bool)
    ensures
        final(out)@ == rows_appended(old(out)@, rows@.map_values(|r: Vec<String>| views_of(r@))),
        full == (utf8(final(out)@).len() >= MAX_EXTRACT_BYTES),
{
    let ghost all = rows@.map_values(|r: Vec<String>| views_of(r@));
    let mut i: usize = 0;
    proof {
        assert(all.skip(0) =~= all);
    }
    while i < rows.len()
        invariant
            i <= rows.len(),
            all == rows@.map_values(|r: Vec<String>| views_of(r@)),
            rows_appended(out@, all.skip(i as int)) == rows_appended(old(out)@, all),
        decreases rows.len() - i,
    {
        if sheet_text_full(out.as_str()) {
            proof {
                assert(rows_appended(out@, all.skip(i as int)) == out@);
            }
            return true;
        }
        proof {
            assert(all.skip(i as int)[0] == views_of(rows@[i as int]@));
            assert(all.skip(i as int).drop_first() =~= all.skip(i + 1));
        }
        push_row(out, rows[i].as_slice());
        i = i + 1;
    }
    proof {
        assert(all.skip(i as int).len() == 0);
    }
    sheet_text_full(out.as_str())
}

/// The sheet text never grows past the cap by more than one row: where
/// every row's line (cells and line break) has at most `w` bytes, the text
/// after appending rows is at most the larger of its length before and
/// `MAX_EXTRACT_BYTES - 1 + w` bytes; a text already at the cap takes no row.
pub proof fn law_sheet_text_is_capped(out: Seq<char>, rows: Seq<Seq<Seq<char>>>, w: nat)
    requires
        forall|k: int| 0 <= k < rows.len() ==> utf8(join_cells(#[trigger] rows[k]) + seq!['\n']).len() <= w,
    ensures
        utf8(rows_appended(out, rows)).len() <= (if utf8(out).len() > MAX_EXTRACT_BYTES - 1 + w {
            utf8(out).len() as int
        } else {
            MAX_EXTRACT_BYTES - 1 + w
        }),
        utf8(out).len() >= MAX_EXTRACT_BYTES ==> rows_appended(out, rows) == out,
    decreases rows.len(),
{
    if rows.len() > 0 && utf8(out).len() < MAX_EXTRACT_BYTES {
        let line = join_cells(rows[0]) + seq!['\n'];
        let next = out + join_cells(rows[0]) + seq!['\n'];
        assert(next =~= out + line);
        lemma_encode_concat(out, line);
        assert forall|k: int| 0 <= k < rows.drop_first().len() implies utf8(
            join_cells(#[trigger] rows.drop_first()[k]) + seq!['\n'],
        ).len() <= w by {
            assert(rows.drop_first()[k] == rows[k + 1]);
        }
        law_sheet_text_is_capped(next, rows.drop_first(), w);
    }
}

/// A legacy document or PDF of `size` bytes may go to its parser.
pub fn legacy_size_ok(size: u64) -> (b: bool)
    ensures
        b == (size <= MAX_LEGACY_FILE_BYTES),
{
    size <= MAX_LEGACY_FILE_BYTES
}

/// Text a parser produced, kept unless it is blank.
pub fn nonblank(text: String) -> (r: Option<String>)
    ensures
        r == (if trim_ws(text@).len() == 0 {
            None
        } else {
            Some(text)
        }),
{
    let v = chars_of(text.as_str());
    let t = trim_range(&v, 0, v.len());
    proof {
        assert(v@.subrange(0, v@.len() as int) =~= v@);
    }
    if t.len() == 0 {
        None
    } else {
        Some(text)
    }
}

} // verus!
