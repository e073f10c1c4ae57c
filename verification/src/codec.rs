use vstd::prelude::*;

use crate::error::TLCError;

verus! {

/// The field separator of the delimited-text matrix format.
pub const FIELD_SEP: u8 = 44;

/// The record terminator of the delimited-text matrix format.
pub const ROW_SEP: u8 = 10;

/// The index of the first `sep` in `s`, or `s.len()` when none occurs.
pub open spec fn find_sep(s: Seq<u8>, sep: u8) -> nat
    decreases s.len(),
{
    if s.len() == 0 {
        0
    } else if s[0] == sep {
        0
    } else {
        1 + find_sep(s.drop_first(), sep)
    }
}

/// `s` split on `sep` as a terminator: `"a\nb\n"` and `"a\nb"` both give
/// the two records, and the empty sequence gives none.
pub open spec fn split_terminated(s: Seq<u8>, sep: u8) -> Seq<Seq<u8>>
    decreases s.len(),
{
    if s.len() == 0 {
        Seq::<Seq<u8>>::empty()
    } else {
        let f = find_sep(s, sep);
        if f < s.len() {
            seq![s.take(f as int)] + split_terminated(s.skip(f as int + 1), sep)
        } else {
            seq![s]
        }
    }
}

/// `s` split on `sep` as a separator: there is always at least one field,
/// and the empty sequence gives one empty field.
pub open spec fn split_fields(s: Seq<u8>, sep: u8) -> Seq<Seq<u8>>
    decreases s.len(),
{
    let f = find_sep(s, sep);
    if f < s.len() {
        seq![s.take(f as int)] + split_fields(s.skip(f as int + 1), sep)
    } else {
        seq![s]
    }
}

/// One row's cells joined by the field separator.
pub open spec fn encode_cells(row: Seq<Seq<u8>>) -> Seq<u8>
    decreases row.len(),
{
    if row.len() == 0 {
        Seq::<u8>::empty()
    } else if row.len() == 1 {
        row[0]
    } else {
        row[0] + seq![FIELD_SEP] + encode_cells(row.drop_first())
    }
}

/// The whole matrix as text: each row's cells joined by the field
/// separator, each row closed by the record terminator.
pub open spec fn encode_rows(rows: Seq<Seq<Seq<u8>>>) -> Seq<u8>
    decreases rows.len(),
{
    if rows.len() == 0 {
        Seq::<u8>::empty()
    } else {
        encode_cells(rows[0]) + seq![ROW_SEP] + encode_rows(rows.drop_first())
    }
}

/// The text read back as a matrix of cells: records split on the
/// terminator, each record split into fields.
pub open spec fn parse_spec(text: Seq<u8>) -> Seq<Seq<Seq<u8>>> {
    let lines = split_terminated(text, ROW_SEP);
    Seq::new(lines.len(), |i: int| split_fields(lines[i], FIELD_SEP))
}

/// A cell that the format can carry: free of both separators.
pub open spec fn cell_clean(cell: Seq<u8>) -> bool {
    forall|i: int| 0 <= i < cell.len() ==> cell[i] != FIELD_SEP && cell[i] != ROW_SEP
}

/// The three-level view of a matrix of byte cells.
pub open spec fn cells_view(rows: Vec<Vec<Vec<u8>>>) -> Seq<Seq<Seq<u8>>> {
    Seq::new(
        rows@.len(),
        |r: int| Seq::new(rows@[r]@.len(), |c: int| rows@[r]@[c]@),
    )
}

// ---------------------------------------------------------------------------
// Facts about the split.
// ---------------------------------------------------------------------------

/// Where the first separator of a concatenation lies when the prefix is
/// free of it.
pub proof fn lemma_find_sep_in_concat(a: Seq<u8>, b: Seq<u8>, sep: u8)
    requires
        forall|i: int| 0 <= i < a.len() ==> a[i] != sep,
    ensures
        find_sep(a + seq![sep] + b, sep) == a.len(),
    decreases a.len(),
{
    let s = a + seq![sep] + b;
    if a.len() == 0 {
        assert(s[0] == sep);
    } else {
        assert(s[0] == a[0]);
        assert(s.drop_first() =~= a.drop_first() + seq![sep] + b);
        lemma_find_sep_in_concat(a.drop_first(), b, sep);
    }
}

/// A sequence free of the separator has no separator to find.
pub proof fn lemma_find_sep_free(a: Seq<u8>, sep: u8)
    requires
        forall|i: int| 0 <= i < a.len() ==> a[i] != sep,
    ensures
        find_sep(a, sep) == a.len(),
    decreases a.len(),
{
    if a.len() > 0 {
        lemma_find_sep_free(a.drop_first(), sep);
    }
}

/// Splitting a terminated record off the front.
pub proof fn lemma_split_terminated_concat(a: Seq<u8>, b: Seq<u8>, sep: u8)
    requires
        forall|i: int| 0 <= i < a.len() ==> a[i] != sep,
    ensures
        split_terminated(a + seq![sep] + b, sep) == seq![a] + split_terminated(b, sep),
{
    let s = a + seq![sep] + b;
    lemma_find_sep_in_concat(a, b, sep);
    assert(s.take(a.len() as int) =~= a);
    assert(s.skip(a.len() as int + 1) =~= b);
    assert(split_terminated(s, sep) =~= seq![a] + split_terminated(b, sep));
}

/// The fields of an encoded row are its cells.
pub proof fn lemma_split_fields_of_encoded(row: Seq<Seq<u8>>, sep: u8)
    requires
        sep == FIELD_SEP,
        row.len() >= 1,
        forall|c: int| 0 <= c < row.len() ==> cell_clean(#[trigger] row[c]),
    ensures
        split_fields(encode_cells(row), sep) == row,
    decreases row.len(),
{
    if row.len() == 1 {
        let s = encode_cells(row);
        assert(s == row[0]);
        lemma_find_sep_free(s, sep);
        assert(s.take(s.len() as int) =~= s);
        assert(split_fields(s, sep) =~= row);
    } else {
        let rest = row.drop_first();
        let s = encode_cells(row);
        assert(s == row[0] + seq![sep] + encode_cells(rest));
        lemma_find_sep_in_concat(row[0], encode_cells(rest), sep);
        assert(s.take(row[0].len() as int) =~= row[0]);
        assert(s.skip(row[0].len() as int + 1) =~= encode_cells(rest));
        assert(find_sep(s, sep) < s.len());
        assert(forall|c: int| 0 <= c < rest.len() ==> cell_clean(#[trigger] rest[c]));
        lemma_split_fields_of_encoded(rest, sep);
        assert(split_fields(s, sep) =~= row);
    }
}

/// An encoded row contains no record terminator.
pub proof fn lemma_encode_cells_clean(row: Seq<Seq<u8>>)
    requires
        forall|c: int| 0 <= c < row.len() ==> cell_clean(#[trigger] row[c]),
    ensures
        forall|i: int| 0 <= i < encode_cells(row).len() ==> encode_cells(row)[i] != ROW_SEP,
    decreases row.len(),
{
    if row.len() == 0 {
    } else if row.len() == 1 {
        assert(encode_cells(row) == row[0]);
    } else {
        let rest = row.drop_first();
        assert(forall|c: int| 0 <= c < rest.len() ==> cell_clean(#[trigger] rest[c]));
        lemma_encode_cells_clean(rest);
        let s = row[0] + seq![FIELD_SEP] + encode_cells(rest);
        assert forall|i: int| 0 <= i < s.len() implies s[i] != ROW_SEP by {
            if i < row[0].len() {
                assert(s[i] == row[0][i]);
            } else if i == row[0].len() {
                assert(s[i] == FIELD_SEP);
            } else {
                assert(s[i] == encode_cells(rest)[i - row[0].len() - 1]);
            }
        }
    }
}

/// Writing a matrix through the delimited-text format and reading it back
/// reproduces the matrix of cells exactly, for any matrix with at least
/// one row, at least one cell per row, and no separator byte inside a
/// cell.
pub proof fn lemma_codec_round_trip(rows: Seq<Seq<Seq<u8>>>)
    requires
        rows.len() >= 1,
        forall|r: int| 0 <= r < rows.len() ==> (#[trigger] rows[r]).len() >= 1,
        forall|r: int, c: int|
            0 <= r < rows.len() && 0 <= c < rows[r].len()
                ==> cell_clean(#[trigger] rows[r][c]),
    ensures
        parse_spec(encode_rows(rows)) == rows,
    decreases rows.len(),
{
    let line0 = encode_cells(rows[0]);
    let rest = rows.drop_first();
    let text = encode_rows(rows);
    assert(text == line0 + seq![ROW_SEP] + encode_rows(rest));
    lemma_encode_cells_clean(rows[0]);
    lemma_split_terminated_concat(line0, encode_rows(rest), ROW_SEP);
    lemma_split_fields_of_encoded(rows[0], FIELD_SEP);
    if rest.len() == 0 {
        assert(encode_rows(rest) == Seq::<u8>::empty());
        assert(split_terminated(text, ROW_SEP) =~= seq![line0]);
        assert(parse_spec(text) =~= rows);
    } else {
        assert(forall|r: int| 0 <= r < rest.len() ==> (#[trigger] rest[r]).len() >= 1);
        assert(forall|r: int, c: int|
            0 <= r < rest.len() && 0 <= c < rest[r].len()
                ==> cell_clean(#[trigger] rest[r][c]));
        lemma_codec_round_trip(rest);
        let lines = split_terminated(text, ROW_SEP);
        let lines_rest = split_terminated(encode_rows(rest), ROW_SEP);
        assert(lines == seq![line0] + lines_rest);
        assert forall|i: int| 0 <= i < rows.len()
            implies split_fields(lines[i], FIELD_SEP) == rows[i] by {
            if i == 0 {
                assert(lines[0] == line0);
            } else {
                assert(lines[i] == lines_rest[i - 1]);
                assert(parse_spec(encode_rows(rest))[i - 1] == rest[i - 1]);
            }
        }
        assert(parse_spec(text) =~= rows);
    }
}

// ---------------------------------------------------------------------------
// The executable codec.
// ---------------------------------------------------------------------------

/// Appending a cell to a row extends its encoding by a separator and the
/// cell (the separator only from the second cell on).
pub proof fn lemma_encode_cells_snoc(row: Seq<Seq<u8>>, cell: Seq<u8>)
    ensures
        encode_cells(row.push(cell)) == if row.len() == 0 {
            cell
        } else {
            encode_cells(row) + seq![FIELD_SEP] + cell
        },
    decreases row.len(),
{
    let pushed = row.push(cell);
    if row.len() == 0 {
        assert(pushed.len() == 1);
        assert(encode_cells(pushed) == pushed[0]);
    } else if row.len() == 1 {
        assert(pushed.drop_first() =~= seq![cell]);
        assert(encode_cells(pushed.drop_first()) == cell);
        assert(encode_cells(row) == row[0]);
        assert(encode_cells(pushed) == pushed[0] + seq![FIELD_SEP] + encode_cells(
            pushed.drop_first(),
        ));
    } else {
        assert(pushed.drop_first() =~= row.drop_first().push(cell));
        lemma_encode_cells_snoc(row.drop_first(), cell);
        assert(encode_cells(pushed) =~= encode_cells(row) + seq![FIELD_SEP] + cell);
    }
}

/// Appending a row extends the encoding by that row's line.
pub proof fn lemma_encode_rows_snoc(rows: Seq<Seq<Seq<u8>>>, row: Seq<Seq<u8>>)
    ensures
        encode_rows(rows.push(row)) == encode_rows(rows) + encode_cells(row) + seq![ROW_SEP],
    decreases rows.len(),
{
    let pushed = rows.push(row);
    if rows.len() == 0 {
        assert(pushed[0] == row);
        assert(pushed.drop_first() =~= Seq::<Seq<Seq<u8>>>::empty());
        assert(encode_rows(Seq::<Seq<Seq<u8>>>::empty()) == Seq::<u8>::empty());
        assert(encode_rows(pushed) == encode_cells(row) + seq![ROW_SEP] + encode_rows(
            Seq::<Seq<Seq<u8>>>::empty(),
        ));
        assert(encode_rows(pushed) =~= encode_rows(rows) + encode_cells(row) + seq![ROW_SEP]);
    } else {
        assert(pushed[0] == rows[0]);
        assert(pushed.drop_first() =~= rows.drop_first().push(row));
        lemma_encode_rows_snoc(rows.drop_first(), row);
        assert(encode_rows(pushed) =~= encode_rows(rows) + encode_cells(row) + seq![ROW_SEP]);
    }
}

/// Writes a matrix of byte cells in the delimited-text format: cells
/// joined by the field separator, each row closed by the terminator.
pub fn encode_matrix_text(rows: &Vec<Vec<Vec<u8>>>) -> (out: Vec<u8>)
    ensures
        out@ == encode_rows(cells_view(*rows)),
{
    let mut out: Vec<u8> = Vec::new();
    let n = rows.len();
    let mut r: usize = 0;
    while r < n
        invariant
            n == rows@.len(),
            r <= n,
            out@ == encode_rows(cells_view(*rows).take(r as int)),
        decreases n - r,
    {
        let row = &rows[r];
        let m = row.len();
        let mut c: usize = 0;
        let ghost row_view = Seq::new(row@.len(), |j: int| row@[j]@);
        let ghost out_at_row_start = out@;
        while c < m
            invariant
                m == row@.len(),
                c <= m,
                row_view == Seq::new(row@.len(), |j: int| row@[j]@),
                out@ == out_at_row_start + encode_cells(row_view.take(c as int)),
            decreases m - c,
        {
            let ghost before = out@;
            if c > 0 {
                out.push(FIELD_SEP);
            }
            let cell = &row[c];
            let k = cell.len();
            let mut i: usize = 0;
            while i < k
                invariant
                    k == cell@.len(),
                    i <= k,
                    c > 0 ==> out@ == before + seq![FIELD_SEP] + cell@.take(i as int),
                    c == 0 ==> out@ == before + cell@.take(i as int),
                decreases k - i,
            {
                let b = cell[i];
                out.push(b);
                proof {
                    assert(cell@.take(i + 1) =~= cell@.take(i as int).push(cell@[i as int]));
                }
                i += 1;
            }
            proof {
                assert(cell@.take(k as int) =~= cell@);
                lemma_encode_cells_snoc(row_view.take(c as int), row_view[c as int]);
                assert(row_view.take(c + 1) =~= row_view.take(c as int).push(row_view[c as int]));
                assert(row_view[c as int] == cell@);
                if c == 0 {
                    assert(encode_cells(row_view.take(0)) == Seq::<u8>::empty());
                    assert(before =~= out_at_row_start);
                    assert(out@ =~= out_at_row_start + encode_cells(row_view.take(c + 1)));
                } else {
                    assert(out@ =~= out_at_row_start + encode_cells(row_view.take(c + 1)));
                }
            }
            c += 1;
        }
        out.push(ROW_SEP);
        proof {
            assert(row_view.take(m as int) =~= row_view);
            lemma_encode_rows_snoc(cells_view(*rows).take(r as int), row_view);
            assert(cells_view(*rows).take(r + 1)
                =~= cells_view(*rows).take(r as int).push(cells_view(*rows)[r as int]));
            assert(cells_view(*rows)[r as int] =~= row_view);
            assert(cells_view(*rows)[r as int] == row_view);
            assert(out@ =~= encode_rows(cells_view(*rows).take(r + 1)));
        }
        r += 1;
    }
    proof {
        assert(cells_view(*rows).take(n as int) =~= cells_view(*rows));
    }
    out
}

/// Scans for the next occurrence of `sep` at or after `from`.
fn scan_sep(text: &Vec<u8>, from: usize, sep: u8) -> (at: usize)
    requires
        from <= text@.len(),
    ensures
        from <= at <= text@.len(),
        at - from == find_sep(text@.skip(from as int), sep),
        at < text@.len() ==> text@[at as int] == sep,
{
    let n = text.len();
    let mut at = from;
    while at < n && text[at] != sep
        invariant
            from <= at <= n,
            n == text@.len(),
            find_sep(text@.skip(from as int), sep) == (at - from) + find_sep(
                text@.skip(at as int),
                sep,
            ),
            forall|i: int| from <= i < at ==> text@[i] != sep,
        decreases n - at,
    {
        proof {
            assert(text@.skip(at as int).drop_first() =~= text@.skip(at + 1));
        }
        at += 1;
    }
    proof {
        if at < n {
            assert(text@.skip(at as int)[0] == sep);
            assert(find_sep(text@.skip(at as int), sep) == 0);
        } else {
            assert(text@.skip(at as int) =~= Seq::<u8>::empty());
        }
    }
    at
}

/// Splits one record into its fields.
fn parse_line(text: &Vec<u8>, start: usize, end: usize) -> (cells: Vec<Vec<u8>>)
    requires
        start <= end <= text@.len(),
    ensures
        Seq::new(cells@.len(), |j: int| cells@[j]@) == split_fields(
            text@.subrange(start as int, end as int),
            FIELD_SEP,
        ),
{
    let mut cells: Vec<Vec<u8>> = Vec::new();
    let mut pos = start;
    let ghost line = text@.subrange(start as int, end as int);
    loop
        invariant
            start <= pos <= end <= text@.len(),
            line == text@.subrange(start as int, end as int),
            split_fields(line, FIELD_SEP) == Seq::new(cells@.len(), |j: int| cells@[j]@)
                + split_fields(text@.subrange(pos as int, end as int), FIELD_SEP),
        decreases end - pos + 1,
    {
        let ghost remaining = text@.subrange(pos as int, end as int);
        let sep_at = scan_sep_bounded(text, pos, end, FIELD_SEP);
        let mut cell: Vec<u8> = Vec::new();
        let mut i = pos;
        while i < sep_at
            invariant
                pos <= i <= sep_at <= end <= text@.len(),
                cell@ == text@.subrange(pos as int, i as int),
            decreases sep_at - i,
        {
            let b = text[i];
            cell.push(b);
            proof {
                assert(text@.subrange(pos as int, i + 1)
                    =~= text@.subrange(pos as int, i as int).push(text@[i as int]));
            }
            i += 1;
        }
        proof {
            assert(remaining.take(sep_at - pos) =~= text@.subrange(pos as int, sep_at as int));
        }
        let ghost cells_before = Seq::new(cells@.len(), |j: int| cells@[j]@);
        cells.push(cell);
        proof {
            assert(Seq::new(cells@.len(), |j: int| cells@[j]@)
                =~= cells_before.push(text@.subrange(pos as int, sep_at as int)));
        }
        if sep_at == end {
            proof {
                assert(find_sep(remaining, FIELD_SEP) == remaining.len());
                assert(remaining.take(remaining.len() as int) =~= remaining);
                assert(split_fields(remaining, FIELD_SEP) =~= seq![remaining]);
                assert(remaining =~= text@.subrange(pos as int, sep_at as int));
                assert(split_fields(line, FIELD_SEP)
                    =~= Seq::new(cells@.len(), |j: int| cells@[j]@));
            }
            return cells;
        }
        proof {
            assert(find_sep(remaining, FIELD_SEP) == sep_at - pos);
            assert(remaining.skip(sep_at - pos + 1) =~= text@.subrange(sep_at + 1, end as int));
            assert(split_fields(remaining, FIELD_SEP) =~= seq![
                text@.subrange(pos as int, sep_at as int),
            ] + split_fields(text@.subrange(sep_at + 1, end as int), FIELD_SEP));
        }
        pos = sep_at + 1;
    }
}

/// Scans for the next occurrence of `sep` in `text[from..end)`, returning
/// `end` when none occurs there.
fn scan_sep_bounded(text: &Vec<u8>, from: usize, end: usize, sep: u8) -> (at: usize)
    requires
        from <= end <= text@.len(),
    ensures
        from <= at <= end,
        at - from == find_sep(text@.subrange(from as int, end as int), sep),
        at < end ==> text@[at as int] == sep,
{
    let mut at = from;
    while at < end && text[at] != sep
        invariant
            from <= at <= end <= text@.len(),
            find_sep(text@.subrange(from as int, end as int), sep) == (at - from) + find_sep(
                text@.subrange(at as int, end as int),
                sep,
            ),
            forall|i: int| from <= i < at ==> text@[i] != sep,
        decreases end - at,
    {
        proof {
            assert(text@.subrange(at as int, end as int).drop_first()
                =~= text@.subrange(at + 1, end as int));
        }
        at += 1;
    }
    proof {
        if at < end {
            assert(text@.subrange(at as int, end as int)[0] == sep);
        } else {
            assert(text@.subrange(at as int, end as int) =~= Seq::<u8>::empty());
        }
    }
    at
}

/// The three-level view of the rows parsed so far.
pub open spec fn cells_view_seq(rows: Seq<Vec<Vec<u8>>>) -> Seq<Seq<Seq<u8>>> {
    Seq::new(
        rows.len(),
        |r: int| Seq::new(rows[r]@.len(), |c: int| rows[r]@[c]@),
    )
}

/// Peeling the first record off a text peels its fields off the parse.
proof fn lemma_parse_spec_unfold(s: Seq<u8>, chunk: Seq<u8>, rest: Seq<u8>)
    requires
        split_terminated(s, ROW_SEP) == seq![chunk] + split_terminated(rest, ROW_SEP),
    ensures
        parse_spec(s) == seq![split_fields(chunk, FIELD_SEP)] + parse_spec(rest),
{
    let lines = split_terminated(s, ROW_SEP);
    let lines_rest = split_terminated(rest, ROW_SEP);
    assert forall|i: int| 0 <= i < lines.len()
        implies split_fields(lines[i], FIELD_SEP) == (seq![split_fields(chunk, FIELD_SEP)]
            + parse_spec(rest))[i] by {
        if i == 0 {
            assert(lines[0] == chunk);
        } else {
            assert(lines[i] == lines_rest[i - 1]);
        }
    }
    assert(parse_spec(s) =~= seq![split_fields(chunk, FIELD_SEP)] + parse_spec(rest));
}

/// Reads a delimited-text matrix back into its byte cells. An empty text
/// is reported, matching the writer, which never produces one.
pub fn parse_matrix_text(text: &Vec<u8>) -> (r: Result<Vec<Vec<Vec<u8>>>, TLCError>)
    ensures
        match r {
            Ok(rows) => {
                &&& text@.len() > 0
                &&& cells_view(rows) == parse_spec(text@)
            },
            Err(e) => text@.len() == 0 && e == TLCError::EmptyText,
        },
{
    let n = text.len();
    if n == 0 {
        return Err(TLCError::EmptyText);
    }
    let mut rows: Vec<Vec<Vec<u8>>> = Vec::new();
    let mut pos: usize = 0;
    proof {
        assert(text@.skip(0) =~= text@);
        assert(cells_view_seq(rows@) =~= Seq::<Seq<Seq<u8>>>::empty());
        assert(parse_spec(text@) =~= cells_view_seq(rows@) + parse_spec(text@.skip(0)));
    }
    while pos < n
        invariant
            pos <= n,
            n == text@.len(),
            parse_spec(text@) == cells_view_seq(rows@) + parse_spec(text@.skip(pos as int)),
        decreases n - pos,
    {
        let ghost remaining = text@.skip(pos as int);
        let sep_at = scan_sep(text, pos, ROW_SEP);
        let line_end = if sep_at < n {
            sep_at
        } else {
            n
        };
        let new_pos = if sep_at < n {
            sep_at + 1
        } else {
            n
        };
        let cells = parse_line(text, pos, line_end);
        let ghost rows_before = rows@;
        rows.push(cells);
        proof {
            let chunk = text@.subrange(pos as int, line_end as int);
            assert(remaining.take(line_end - pos) =~= chunk);
            if sep_at < n {
                assert(find_sep(remaining, ROW_SEP) == sep_at - pos);
                assert(remaining.skip(sep_at - pos + 1) =~= text@.skip(new_pos as int));
                assert(split_terminated(remaining, ROW_SEP) =~= seq![chunk] + split_terminated(
                    text@.skip(new_pos as int),
                    ROW_SEP,
                ));
            } else {
                assert(find_sep(remaining, ROW_SEP) == remaining.len());
                assert(remaining.take(remaining.len() as int) =~= remaining);
                assert(remaining =~= chunk);
                assert(text@.skip(new_pos as int) =~= Seq::<u8>::empty());
                assert(split_terminated(Seq::<u8>::empty(), ROW_SEP)
                    =~= Seq::<Seq<u8>>::empty());
                assert(split_terminated(remaining, ROW_SEP) =~= seq![chunk] + split_terminated(
                    text@.skip(new_pos as int),
                    ROW_SEP,
                ));
            }
            lemma_parse_spec_unfold(remaining, chunk, text@.skip(new_pos as int));
            assert(Seq::new(cells@.len(), |j: int| cells@[j]@) == split_fields(
                chunk,
                FIELD_SEP,
            ));
            assert(cells_view_seq(rows@) =~= cells_view_seq(rows_before).push(
                Seq::new(cells@.len(), |j: int| cells@[j]@),
            ));
            assert(cells_view_seq(rows@) + parse_spec(text@.skip(new_pos as int))
                =~= cells_view_seq(rows_before) + parse_spec(remaining));
        }
        pos = new_pos;
        proof {
            assert(pos > sep_at - 1);
        }
    }
    proof {
        assert(text@.skip(n as int) =~= Seq::<u8>::empty());
        assert(split_terminated(Seq::<u8>::empty(), ROW_SEP) =~= Seq::<Seq<u8>>::empty());
        assert(parse_spec(Seq::<u8>::empty()) =~= Seq::<Seq<Seq<u8>>>::empty());
        assert(cells_view(rows) =~= cells_view_seq(rows@));
        assert(cells_view(rows) =~= parse_spec(text@));
    }
    Ok(rows)
}

} // verus!
