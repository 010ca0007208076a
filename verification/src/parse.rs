use vstd::prelude::*;

use crate::sample::TrackSample;

verus! {

/// The byte that separates rows of the delimited text.
pub const ROW_SEP: u8 = 0x0a;
/// The byte that separates fields inside a row.
pub const FIELD_SEP: u8 = 0x2c;
/// The marker byte `T` that opens a track-point row.
pub const ROW_MARKER: u8 = 0x54;
/// The bit pattern of the zero slope a row falls back to.
pub const ZERO_SLOPE_BITS: u64 = 0;

/// `s` cut at every occurrence of `sep`: always one more piece than there
/// are separators, and empty pieces where two separators touch.
pub open spec fn spec_split(s: Seq<u8>, sep: u8) -> Seq<Seq<u8>>
    decreases s.len(),
{
    if s.len() == 0 {
        seq![Seq::<u8>::empty()]
    } else {
        let rest = spec_split(s.drop_last(), sep);
        if s.last() == sep {
            rest.push(Seq::empty())
        } else {
            rest.update(rest.len() - 1, rest.last().push(s.last()))
        }
    }
}

/// The views of a sequence of byte vectors.
pub open spec fn views_of(v: Seq<Vec<u8>>) -> Seq<Seq<u8>> {
    v.map_values(|f: Vec<u8>| f@)
}

/// Cuts `s` at every occurrence of `sep`.
pub fn split_bytes(s: &Vec<u8>, sep: u8) -> (r: Vec<Vec<u8>>)
    ensures
        views_of(r@) == spec_split(s@, sep),
{
    let mut fields: Vec<Vec<u8>> = Vec::new();
    let mut cur: Vec<u8> = Vec::new();
    proof {
        assert(s@.take(0) =~= Seq::<u8>::empty());
        assert(views_of(fields@).push(cur@) =~= seq![Seq::<u8>::empty()]);
    }
    for i in 0..s.len()
        invariant
            views_of(fields@).push(cur@) == spec_split(s@.take(i as int), sep),
    {
        let b = s[i];
        proof {
            assert(s@.take(i as int + 1).drop_last() =~= s@.take(i as int));
        }
        if b == sep {
            let done = cur;
            cur = Vec::new();
            fields.push(done);
            proof {
                assert(views_of(fields@)
                    =~= views_of(fields@.drop_last()).push(fields@.last()@));
                assert(views_of(fields@).push(cur@)
                    =~= spec_split(s@.take(i as int), sep).push(Seq::<u8>::empty()));
            }
        } else {
            cur.push(b);
            proof {
                let prev = spec_split(s@.take(i as int), sep);
                assert(views_of(fields@).push(cur@)
                    =~= prev.update(prev.len() - 1, prev.last().push(b)));
            }
        }
    }
    proof {
        assert(s@.take(s@.len() as int) =~= s@);
    }
    fields.push(cur);
    proof {
        assert(views_of(fields@)
            =~= views_of(fields@.drop_last()).push(fields@.last()@));
    }
    fields
}

/// One accepted row before numeric interpretation: the raw bytes of the
/// corrected-speed field, and of the corrected-slope field where the row
/// has one.
pub struct RawRow {
    /// Bytes of the corrected-speed field; never empty.
    pub speed_field: Vec<u8>,
    /// Bytes of the corrected-slope field, absent when the row ends early.
    pub slope_field: Option<Vec<u8>>,
}

impl View for RawRow {
    type V = (Seq<u8>, Option<Seq<u8>>);

    open spec fn view(&self) -> (Seq<u8>, Option<Seq<u8>>) {
        (
            self.speed_field@,
            match self.slope_field {
                Some(ref v) => Some(v@),
                None => None,
            },
        )
    }
}

/// What one row contributes: `None` for a dropped row, otherwise the speed
/// field's bytes and, where present, the slope field's bytes. A row is kept
/// exactly when its marker field is the single byte `T`, it reaches the
/// corrected-speed field, and that field is not empty.
pub open spec fn row_of_line(line: Seq<u8>) -> Option<(Seq<u8>, Option<Seq<u8>>)> {
    let fields = spec_split(line, FIELD_SEP);
    if fields.len() >= 6 && fields[0] == seq![ROW_MARKER] && fields[5].len() > 0 {
        Some(
            (
                fields[5],
                if fields.len() >= 7 {
                    Some(fields[6])
                } else {
                    None
                },
            ),
        )
    } else {
        None
    }
}

/// The rows that a sequence of lines contributes, in order.
pub open spec fn rows_of_lines(lines: Seq<Seq<u8>>) -> Seq<(Seq<u8>, Option<Seq<u8>>)>
    decreases lines.len(),
{
    if lines.len() == 0 {
        Seq::empty()
    } else {
        let init = rows_of_lines(lines.drop_last());
        match row_of_line(lines.last()) {
            Some(r) => init.push(r),
            None => init,
        }
    }
}

/// The rows of a whole delimited text: its lines, each filtered and
/// stripped to the two fields of interest by `row_of_line`.
pub open spec fn parsed_rows(csv: Seq<u8>) -> Seq<(Seq<u8>, Option<Seq<u8>>)> {
    rows_of_lines(spec_split(csv, ROW_SEP))
}

/// The views of a sequence of raw rows.
pub open spec fn row_views(rows: Seq<RawRow>) -> Seq<(Seq<u8>, Option<Seq<u8>>)> {
    rows.map_values(|r: RawRow| r@)
}

fn copy_bytes(src: &Vec<u8>) -> (r: Vec<u8>)
    ensures
        r@ == src@,
{
    let mut out: Vec<u8> = Vec::new();
    for i in 0..src.len()
        invariant
            out@ == src@.take(i as int),
    {
        out.push(src[i]);
        proof {
            assert(src@.take(i as int + 1) =~= src@.take(i as int).push(src@[i as int]));
        }
    }
    proof {
        assert(src@.take(src@.len() as int) =~= src@);
    }
    out
}

/// Splits the delimited text into rows and keeps, per accepted row, the raw
/// bytes of the corrected-speed and corrected-slope fields. A row whose
/// marker field is not the single byte `T`, or that never reaches the
/// corrected-speed field, or whose corrected-speed field is empty, is
/// dropped; a missing corrected-slope field is kept as absent.
pub fn parse_rows(csv: &Vec<u8>) -> (r: Vec<RawRow>)
    ensures
        row_views(r@) == parsed_rows(csv@),
{
    let lines = split_bytes(csv, ROW_SEP);
    let mut rows: Vec<RawRow> = Vec::new();
    proof {
        assert(views_of(lines@).take(0) =~= Seq::<Seq<u8>>::empty());
        assert(row_views(rows@) =~= Seq::<(Seq<u8>, Option<Seq<u8>>)>::empty());
    }
    for i in 0..lines.len()
        invariant
            views_of(lines@) == spec_split(csv@, ROW_SEP),
            lines@.len() == views_of(lines@).len(),
            row_views(rows@) == rows_of_lines(views_of(lines@).take(i as int)),
    {
        let ghost line = views_of(lines@)[i as int];
        proof {
            assert(views_of(lines@).take(i as int + 1).drop_last()
                =~= views_of(lines@).take(i as int));
        }
        let fields = split_bytes(&lines[i], FIELD_SEP);
        proof {
            assert(views_of(fields@) == spec_split(line, FIELD_SEP));
        }
        if fields.len() >= 6 {
            let marker_ok = fields[0].len() == 1 && fields[0][0] == ROW_MARKER;
            if marker_ok && fields[5].len() > 0 {
                proof {
                    assert(views_of(fields@)[0] =~= seq![ROW_MARKER]);
                }
                let speed_field = copy_bytes(&fields[5]);
                let slope_field = if fields.len() >= 7 {
                    Some(copy_bytes(&fields[6]))
                } else {
                    None
                };
                rows.push(RawRow { speed_field, slope_field });
                proof {
                    assert(row_views(rows@)
                        =~= row_views(rows@.drop_last()).push(rows@.last()@));
                    assert(row_views(rows@)
                        =~= rows_of_lines(views_of(lines@).take(i as int + 1)));
                }
            } else {
                proof {
                    if views_of(fields@)[0] == seq![ROW_MARKER] {
                        assert(fields@[0]@.len() == 1 && fields@[0]@[0] == ROW_MARKER);
                    }
                    assert(row_of_line(line) is None);
                }
            }
        } else {
            proof {
                assert(row_of_line(line) is None);
            }
        }
    }
    proof {
        assert(views_of(lines@).take(lines@.len() as int) =~= views_of(lines@));
    }
    rows
}

/// Turns one accepted row's interpreted fields into a sample. The caller
/// interprets each field as a double and hands over the bit patterns:
/// `None` for the speed means the field was not numeric and the row is
/// dropped; `None` for the slope — an absent or non-numeric field — falls
/// back to a zero slope instead of dropping the row.
pub fn sample_from_row(speed_bits: Option<u64>, slope_bits: Option<u64>) -> (r: Option<
    TrackSample,
>)
    ensures
        speed_bits matches Some(sp) ==> r == Some(
            TrackSample {
                speed_bits: sp,
                slope_bits: match slope_bits {
                    Some(sl) => sl,
                    None => ZERO_SLOPE_BITS,
                },
            },
        ),
        speed_bits is None ==> r is None,
{
    match speed_bits {
        None => None,
        Some(sp) => Some(
            TrackSample {
                speed_bits: sp,
                slope_bits: match slope_bits {
                    Some(sl) => sl,
                    None => ZERO_SLOPE_BITS,
                },
            },
        ),
    }
}

/// A line whose marker field is anything but the single byte `T`
/// contributes no row.
pub proof fn lemma_row_skipped_without_marker(line: Seq<u8>)
    requires
        spec_split(line, FIELD_SEP)[0] != seq![ROW_MARKER],
    ensures
        row_of_line(line) is None,
{
}

/// A line whose corrected-speed field is empty contributes no row, marker
/// or not.
pub proof fn lemma_row_skipped_on_empty_speed(line: Seq<u8>)
    requires
        spec_split(line, FIELD_SEP).len() >= 6,
        spec_split(line, FIELD_SEP)[5].len() == 0,
    ensures
        row_of_line(line) is None,
{
}

} // verus!
