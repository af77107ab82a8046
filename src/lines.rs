use vstd::prelude::*;

use crate::dump::{
    chunk_output, collapsed, complete_rows, feed_output, is_dup, lemma_rows_extend, line_start,
    previous_row, window,
};
use crate::hex::hex_text;
use crate::row::{blank_cells, gutter, hex_cells, row_text};
use crate::vt::clear_right_seq;

verus! {

/// The number of line feeds in `s`.
pub open spec fn newlines(s: Seq<u8>) -> nat
    decreases s.len(),
{
    if s.len() == 0 {
        0
    } else {
        newlines(s.drop_last()) + if s.last() == 0x0a {
            1nat
        } else {
            0nat
        }
    }
}

/// Row `i` is the first repeat of a run, shown as a `*` line.
pub open spec fn is_marker(rows: Seq<Seq<u8>>, i: int) -> bool {
    is_dup(rows, i) && !is_dup(rows, i - 1)
}

/// Row `i` extends a run that already has its `*` line, and adds no line.
pub open spec fn is_silent(rows: Seq<Seq<u8>>, i: int) -> bool {
    is_dup(rows, i) && is_dup(rows, i - 1)
}

/// The lines that the complete rows take: one for each row but the repeats
/// after the first in a run.
pub open spec fn line_count(rows: Seq<Seq<u8>>) -> nat
    decreases rows.len(),
{
    if rows.len() == 0 {
        0
    } else {
        line_count(rows.drop_last()) + if is_silent(rows, rows.len() - 1) {
            0nat
        } else {
            1nat
        }
    }
}

/// No two neighbouring rows are equal.
pub open spec fn no_repeats(rows: Seq<Seq<u8>>) -> bool {
    forall|i: int| 0 < i < rows.len() ==> !#[trigger] is_dup(rows, i)
}

/// No byte of `s` is a line feed.
pub open spec fn clean(s: Seq<u8>) -> bool {
    forall|i: int| 0 <= i < s.len() ==> s[i] != 0x0a
}

proof fn lemma_newlines_append(a: Seq<u8>, b: Seq<u8>)
    ensures
        newlines(a + b) == newlines(a) + newlines(b),
    decreases b.len(),
{
    if b.len() == 0 {
        assert(a + b =~= a);
    } else {
        assert((a + b).drop_last() =~= a + b.drop_last());
        lemma_newlines_append(a, b.drop_last());
    }
}

proof fn lemma_clean_newlines(s: Seq<u8>)
    requires
        clean(s),
    ensures
        newlines(s) == 0,
    decreases s.len(),
{
    if s.len() > 0 {
        lemma_clean_newlines(s.drop_last());
    }
}

proof fn lemma_newline_one()
    ensures
        newlines(seq![0x0au8]) == 1,
{
    let s = seq![0x0au8];
    assert(s.drop_last() =~= Seq::<u8>::empty());
    assert(newlines(s.drop_last()) == 0);
    assert(s.last() == 0x0a);
}

proof fn lemma_hex_text_clean(v: nat, w: nat)
    ensures
        clean(hex_text(v, w)),
    decreases v + w,
{
    if !(v == 0 && w == 0) {
        lemma_hex_text_clean(v / 16, if w > 0 { (w - 1) as nat } else { 0 });
    }
}

proof fn lemma_hex_cells_clean(bytes: Seq<u8>)
    ensures
        clean(hex_cells(bytes)),
    decreases bytes.len(),
{
    if bytes.len() > 0 {
        lemma_hex_cells_clean(bytes.drop_last());
    }
}

proof fn lemma_blank_cells_clean(from: nat, to: nat)
    ensures
        clean(blank_cells(from, to)),
    decreases to,
{
    if to > from {
        lemma_blank_cells_clean(from, (to - 1) as nat);
    }
}

proof fn lemma_gutter_clean(bytes: Seq<u8>)
    ensures
        clean(gutter(bytes)),
    decreases bytes.len(),
{
    if bytes.len() > 0 {
        lemma_gutter_clean(bytes.drop_last());
    }
}

/// A drawn row never holds a line feed: it stays on one line.
pub proof fn lemma_row_text_one_line(bytes: Seq<u8>, offset: nat)
    ensures
        newlines(row_text(bytes, offset)) == 0,
{
    lemma_hex_text_clean(offset, 8);
    lemma_hex_cells_clean(bytes);
    lemma_blank_cells_clean(bytes.len(), 16);
    lemma_gutter_clean(bytes);
    lemma_clean_newlines(row_text(bytes, offset));
}

/// When a chunk completes a row, that row repeats the row before it exactly
/// when it equals the stored previous row, and the row before it was a repeat
/// exactly when a run was being collapsed.
pub proof fn lemma_completed_row_kind(data: Seq<u8>, chunk: Seq<u8>)
    requires
        1 <= chunk.len() <= window(data),
        (data + chunk).len() % 16 == 0,
    ensures
        ({
            let next = data + chunk;
            let rows = complete_rows(next);
            let row = next.subrange(line_start(data) as int, next.len() as int);
            &&& rows.len() == complete_rows(data).len() + 1
            &&& rows.last() == row
            &&& is_dup(rows, rows.len() - 1) == (previous_row(data) == Some(row))
            &&& is_dup(rows, rows.len() - 2) == collapsed(data)
        }),
{
    lemma_rows_extend(data, chunk);
}

/// Each read ends as many lines as the complete rows gain in `line_count`:
/// one when it completes a row that is drawn or starts a run, none otherwise.
pub proof fn lemma_chunk_newlines(data: Seq<u8>, chunk: Seq<u8>)
    requires
        1 <= chunk.len() <= window(data),
    ensures
        newlines(chunk_output(data, chunk)) + line_count(complete_rows(data)) == line_count(
            complete_rows(data + chunk),
        ),
{
    let next = data + chunk;
    let start = line_start(data);
    let row = next.subrange(start as int, next.len() as int);
    let cr: Seq<u8> = if data.len() % 16 != 0 { seq![0x0du8] } else { Seq::empty() };
    let nl = seq![0x0au8];
    lemma_rows_extend(data, chunk);
    lemma_newline_one();
    lemma_clean_newlines(cr);
    lemma_clean_newlines(clear_right_seq());
    lemma_clean_newlines(seq![0x2au8]);
    lemma_clean_newlines(Seq::<u8>::empty());
    lemma_row_text_one_line(row, start);
    lemma_newlines_append(cr, row_text(row, start));
    lemma_newlines_append(cr + row_text(row, start), nl);
    lemma_newlines_append(cr + row_text(row, start), Seq::empty());
    lemma_newlines_append(cr, clear_right_seq());
    lemma_newlines_append(cr, seq![0x2au8]);
    lemma_newlines_append(cr + seq![0x2au8], clear_right_seq());
    lemma_newlines_append(cr + seq![0x2au8] + clear_right_seq(), nl);
    lemma_newlines_append(seq![0x2au8], nl);
    assert(seq![0x2au8] + nl =~= seq![0x2au8, 0x0au8]);
    if next.len() % 16 == 0 {
        lemma_completed_row_kind(data, chunk);
        assert(complete_rows(next).drop_last() =~= complete_rows(data));
    }
}

proof fn lemma_feed_newlines(data: Seq<u8>, input: Seq<u8>)
    ensures
        newlines(feed_output(data, input)) + line_count(complete_rows(data)) == line_count(
            complete_rows(data + input),
        ),
    decreases input.len(),
{
    if input.len() == 0 {
        assert(data + input =~= data);
    } else {
        let n = if input.len() < window(data) { input.len() } else { window(data) };
        let c = input.subrange(0, n as int);
        let rest = input.subrange(n as int, input.len() as int);
        lemma_chunk_newlines(data, c);
        lemma_feed_newlines(data + c, rest);
        lemma_newlines_append(chunk_output(data, c), feed_output(data + c, rest));
        assert(data + c + rest =~= data + input);
    }
}

proof fn lemma_line_count_bound(rows: Seq<Seq<u8>>)
    ensures
        line_count(rows) <= rows.len(),
        no_repeats(rows) ==> line_count(rows) == rows.len(),
    decreases rows.len(),
{
    if rows.len() > 0 {
        let d = rows.drop_last();
        lemma_line_count_bound(d);
        if no_repeats(rows) {
            assert forall|i: int| 0 < i < d.len() implies !#[trigger] is_dup(d, i) by {
                assert(!is_dup(rows, i));
            }
            assert(!is_dup(rows, rows.len() - 1));
        }
    }
}

/// Dumping a stream takes one line for each complete row, less one for each
/// repeat after the first in a run of equal rows: the number of lines ended
/// while the stream is fed never exceeds the number of complete rows, and
/// equals it when no two neighbouring rows are equal. A final partial row adds
/// the one line that the end of the stream closes.
pub proof fn lemma_dump_line_count(data: Seq<u8>)
    ensures
        complete_rows(data).len() == data.len() / 16,
        newlines(feed_output(Seq::empty(), data)) == line_count(complete_rows(data)),
        line_count(complete_rows(data)) <= complete_rows(data).len(),
        no_repeats(complete_rows(data)) ==> line_count(complete_rows(data)) == complete_rows(
            data,
        ).len(),
{
    lemma_feed_newlines(Seq::empty(), data);
    assert(Seq::<u8>::empty() + data =~= data);
    assert(complete_rows(Seq::<u8>::empty()) =~= Seq::<Seq<u8>>::empty());
    lemma_line_count_bound(complete_rows(data));
}

/// A run of `k >= 2` equal rows that follows a different row, or starts the
/// stream, is drawn in full once and then gets exactly one `*` line: its
/// second row is the only marker in it, and every later row adds no line.
pub proof fn lemma_run_one_marker(rows: Seq<Seq<u8>>, s: int, k: int)
    requires
        0 <= s,
        k >= 2,
        s + k <= rows.len(),
        forall|j: int| s <= j < s + k ==> rows[j] == rows[s],
        s == 0 || rows[s - 1] != rows[s],
    ensures
        !is_dup(rows, s),
        is_marker(rows, s + 1),
        forall|j: int| s + 2 <= j < s + k ==> #[trigger] is_silent(rows, j),
        Set::new(|j: int| s <= j < s + k && is_marker(rows, j)) == set![s + 1],
{
    assert(rows[s + 1] == rows[s]);
    assert forall|j: int| s + 2 <= j < s + k implies #[trigger] is_silent(rows, j) by {
        assert(rows[j] == rows[s]);
        assert(rows[j - 1] == rows[s]);
        assert(rows[j - 2] == rows[s]);
    }
    assert forall|j: int| s <= j < s + k && is_marker(rows, j) implies j == s + 1 by {
        if j >= s + 2 {
            assert(is_silent(rows, j));
        }
    }
    assert(Set::new(|j: int| s <= j < s + k && is_marker(rows, j)) =~= set![s + 1]);
}

/// The first row of a stream is never collapsed: fed whole, it is drawn in
/// full and ends its line.
pub proof fn lemma_first_row_drawn(row: Seq<u8>)
    requires
        row.len() == 16,
    ensures
        chunk_output(Seq::empty(), row) == row_text(row, 0) + seq![0x0au8],
{
    assert(complete_rows(Seq::<u8>::empty()) =~= Seq::<Seq<u8>>::empty());
    assert(Seq::<u8>::empty() + row =~= row);
    assert(row.subrange(0, 16) =~= row);
    assert(seq![] + row_text(row, 0) =~= row_text(row, 0));
}

/// The row that a completed row is compared with changes only when a row
/// that differs from it completes: after a repeat it is still the same row.
pub proof fn lemma_baseline_kept(data: Seq<u8>, chunk: Seq<u8>)
    requires
        1 <= chunk.len() <= window(data),
    ensures
        ({
            let next = data + chunk;
            let row = next.subrange(line_start(data) as int, next.len() as int);
            &&& next.len() % 16 != 0 ==> previous_row(next) == previous_row(data)
            &&& next.len() % 16 == 0 ==> previous_row(next) == Some(row)
            &&& (next.len() % 16 == 0 && previous_row(data) == Some(row)) ==> previous_row(next)
                == previous_row(data)
        }),
{
    lemma_rows_extend(data, chunk);
}

/// Feeding a row one byte at a time ends in the same state as feeding it
/// whole. When the row is drawn, the last byte draws the same text, only
/// preceded by a return to column zero over the partial drawing. When the row
/// repeats the previous one, both give the same `*` line, or none, and the
/// bytewise feed also erases its partial drawing.
pub proof fn lemma_bytewise_row(data: Seq<u8>, row: Seq<u8>)
    requires
        data.len() % 16 == 0,
        row.len() == 16,
    ensures
        ({
            let part = data + row.subrange(0, 15);
            let whole = chunk_output(data, row);
            let last = chunk_output(part, seq![row[15]]);
            &&& part + seq![row[15]] == data + row
            &&& previous_row(data) != Some(row) ==> last == seq![0x0du8] + whole
            &&& (previous_row(data) == Some(row) && !collapsed(data)) ==> {
                &&& whole == seq![0x2au8, 0x0au8]
                &&& last == seq![0x0du8, 0x2au8] + clear_right_seq() + seq![0x0au8]
            }
            &&& (previous_row(data) == Some(row) && collapsed(data)) ==> {
                &&& whole == Seq::<u8>::empty()
                &&& last == seq![0x0du8] + clear_right_seq()
            }
        }),
{
    let part = data + row.subrange(0, 15);
    let last = seq![row[15]];
    assert(part + last =~= data + row);
    lemma_rows_extend(data, row.subrange(0, 15));
    assert(line_start(part) == data.len());
    assert(line_start(data) == data.len());
    assert((data + row).subrange(data.len() as int, (data + row).len() as int) =~= row);
    assert(seq![] + row_text(row, data.len()) =~= row_text(row, data.len()));
    assert(seq![0x0du8] + (row_text(row, data.len()) + seq![0x0au8]) =~= seq![0x0du8] + row_text(
        row,
        data.len(),
    ) + seq![0x0au8]);
    assert(seq![0x0du8] + seq![0x2au8] =~= seq![0x0du8, 0x2au8]);
}

/// The bytes of a sequence of reads, in order.
pub open spec fn joined(reads: Seq<Seq<u8>>) -> Seq<u8>
    decreases reads.len(),
{
    if reads.len() == 0 {
        Seq::empty()
    } else {
        reads[0] + joined(reads.drop_first())
    }
}

/// Every read, taken after `data` and the reads before it, is non-empty and
/// stays within its row.
pub open spec fn reads_fit(data: Seq<u8>, reads: Seq<Seq<u8>>) -> bool
    decreases reads.len(),
{
    reads.len() == 0 || (1 <= reads[0].len() <= window(data) && reads_fit(
        data + reads[0],
        reads.drop_first(),
    ))
}

/// What is written for a sequence of reads taken after `data`.
pub open spec fn reads_output(data: Seq<u8>, reads: Seq<Seq<u8>>) -> Seq<u8>
    decreases reads.len(),
{
    if reads.len() == 0 {
        Seq::empty()
    } else {
        chunk_output(data, reads[0]) + reads_output(data + reads[0], reads.drop_first())
    }
}

proof fn lemma_reads_newlines(data: Seq<u8>, reads: Seq<Seq<u8>>)
    requires
        reads_fit(data, reads),
    ensures
        newlines(reads_output(data, reads)) + line_count(complete_rows(data)) == line_count(
            complete_rows(data + joined(reads)),
        ),
    decreases reads.len(),
{
    if reads.len() == 0 {
        assert(data + joined(reads) =~= data);
    } else {
        let rest = reads.drop_first();
        lemma_chunk_newlines(data, reads[0]);
        lemma_reads_newlines(data + reads[0], rest);
        lemma_newlines_append(chunk_output(data, reads[0]), reads_output(data + reads[0], rest));
        assert(data + reads[0] + joined(rest) =~= data + joined(reads));
    }
}

/// However the stream arrives, in any sequence of reads that each stay within
/// a row, the lines ended equal `line_count` of its complete rows: never more
/// than the complete rows, and exactly as many when no two neighbouring rows
/// are equal.
pub proof fn lemma_reads_line_count(reads: Seq<Seq<u8>>)
    requires
        reads_fit(Seq::empty(), reads),
    ensures
        newlines(reads_output(Seq::empty(), reads)) == line_count(complete_rows(joined(reads))),
        line_count(complete_rows(joined(reads))) <= joined(reads).len() / 16,
        no_repeats(complete_rows(joined(reads))) ==> line_count(complete_rows(joined(reads)))
            == joined(reads).len() / 16,
{
    lemma_reads_newlines(Seq::empty(), reads);
    assert(Seq::<u8>::empty() + joined(reads) =~= joined(reads));
    assert(complete_rows(Seq::<u8>::empty()) =~= Seq::<Seq<u8>>::empty());
    lemma_line_count_bound(complete_rows(joined(reads)));
}

/// What any read writes, by the kind of row it completes: a `*` line for the
/// first repeat of a run, at most an erase for a later repeat, and otherwise
/// the row drawn in full, ending its line when the row is complete.
pub proof fn lemma_read_by_row_kind(data: Seq<u8>, chunk: Seq<u8>)
    requires
        1 <= chunk.len() <= window(data),
    ensures
        ({
            let next = data + chunk;
            let rows = complete_rows(next);
            let i = rows.len() - 1;
            let start = line_start(data);
            let row = next.subrange(start as int, next.len() as int);
            let dirty = data.len() % 16 != 0;
            let cr = if dirty { seq![0x0du8] } else { Seq::<u8>::empty() };
            let out = chunk_output(data, chunk);
            &&& (next.len() % 16 == 0 && is_marker(rows, i)) ==> out == cr + seq![0x2au8] + (if dirty {
                clear_right_seq()
            } else {
                Seq::<u8>::empty()
            }) + seq![0x0au8]
            &&& (next.len() % 16 == 0 && is_silent(rows, i)) ==> out == cr + (if dirty {
                clear_right_seq()
            } else {
                Seq::<u8>::empty()
            })
            &&& (next.len() % 16 == 0 && !is_dup(rows, i)) ==> out == cr + row_text(row, start)
                + seq![0x0au8]
            &&& next.len() % 16 != 0 ==> out == cr + row_text(row, start)
        }),
{
    let next = data + chunk;
    let text = row_text(next.subrange(line_start(data) as int, next.len() as int), line_start(data));
    let e = Seq::<u8>::empty();
    lemma_rows_extend(data, chunk);
    if next.len() % 16 == 0 {
        lemma_completed_row_kind(data, chunk);
    }
    assert(e + seq![0x2au8] + e + seq![0x0au8] =~= seq![0x2au8, 0x0au8]);
    assert(seq![0x0du8] + e =~= seq![0x0du8]);
    assert(e + e =~= e);
    assert(e + text =~= text);
    assert(e + text + e =~= text);
    assert(seq![0x0du8] + text + e =~= seq![0x0du8] + text);
}

} // verus!
