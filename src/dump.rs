use vstd::prelude::*;

use crate::row::{ROW_LEN, render_row, row_text};
use crate::vt::{clear_right_seq, push_clear_right};

verus! {

/// The complete sixteen-byte rows of a stream, in order.
pub open spec fn complete_rows(data: Seq<u8>) -> Seq<Seq<u8>> {
    Seq::new(data.len() / 16, |i: int| data.subrange(16 * i, 16 * i + 16))
}

/// Row `i` equals the row just before it.
pub open spec fn is_dup(rows: Seq<Seq<u8>>, i: int) -> bool {
    0 < i < rows.len() && rows[i] == rows[i - 1]
}

/// The last complete row of the stream, the one later rows are compared with.
pub open spec fn previous_row(data: Seq<u8>) -> Option<Seq<u8>> {
    let rows = complete_rows(data);
    if rows.len() == 0 {
        None
    } else {
        Some(rows.last())
    }
}

/// The last complete row was a duplicate, so a run of duplicates is being collapsed.
pub open spec fn collapsed(data: Seq<u8>) -> bool {
    let rows = complete_rows(data);
    rows.len() > 0 && is_dup(rows, rows.len() - 1)
}

/// How many bytes the next chunk may hold: up to the end of the current row.
pub open spec fn window(data: Seq<u8>) -> nat {
    (16 - data.len() % 16) as nat
}

/// The stream position where the current row starts.
pub open spec fn line_start(data: Seq<u8>) -> nat {
    (data.len() / 16 * 16) as nat
}

/// What is written when `chunk` arrives after `data`, the chunk ending at or
/// before the end of the current row. A row already partly drawn is first
/// returned to column zero. A completed row equal to the previous complete row
/// becomes a `*` line when it starts a run, and only erases what was drawn of
/// it when it extends one. Any other row is drawn in full, and a completed one
/// ends its line.
pub open spec fn chunk_output(data: Seq<u8>, chunk: Seq<u8>) -> Seq<u8> {
    let start = line_start(data);
    let dirty = data.len() % 16 != 0;
    let next = data + chunk;
    let finished = next.len() % 16 == 0;
    let row = next.subrange(start as int, next.len() as int);
    let dup = finished && previous_row(data) == Some(row);
    let cr = if dirty { seq![0x0du8] } else { Seq::empty() };
    if dup {
        if !collapsed(data) {
            if dirty {
                cr + seq![0x2au8] + clear_right_seq() + seq![0x0au8]
            } else {
                seq![0x2au8, 0x0au8]
            }
        } else if dirty {
            cr + clear_right_seq()
        } else {
            Seq::empty()
        }
    } else {
        cr + row_text(row, start) + if finished { seq![0x0au8] } else { Seq::empty() }
    }
}

/// What is written when `input` arrives after `data`, cut into chunks at row
/// boundaries.
pub open spec fn feed_output(data: Seq<u8>, input: Seq<u8>) -> Seq<u8>
    decreases input.len(),
{
    if input.len() == 0 {
        Seq::empty()
    } else {
        let n = if input.len() < window(data) { input.len() } else { window(data) };
        chunk_output(data, input.subrange(0, n as int)) + feed_output(
            data + input.subrange(0, n as int),
            input.subrange(n as int, input.len() as int),
        )
    }
}

/// Taking a chunk that stays within the current row adds a complete row exactly
/// when it fills that row.
pub proof fn lemma_rows_extend(data: Seq<u8>, chunk: Seq<u8>)
    requires
        1 <= chunk.len() <= window(data),
    ensures
        ({
            let next = data + chunk;
            if next.len() % 16 == 0 {
                &&& next.len() == line_start(data) + 16
                &&& complete_rows(next) == complete_rows(data).push(
                    next.subrange(line_start(data) as int, next.len() as int),
                )
            } else {
                &&& next.len() < line_start(data) + 16
                &&& complete_rows(next) == complete_rows(data)
            }
        }),
{
    let next = data + chunk;
    let start = line_start(data);
    let k = data.len() / 16;
    assert(start == 16 * k);
    assert(data.len() < start + 16);
    assert(next.len() <= start + 16);
    if next.len() == start + 16 {
        assert(next.len() / 16 == k + 1);
        assert forall|i: int| 0 <= i < k implies #[trigger] next.subrange(16 * i, 16 * i + 16)
            == data.subrange(16 * i, 16 * i + 16) by {
            assert(next.subrange(16 * i, 16 * i + 16) =~= data.subrange(16 * i, 16 * i + 16));
        }
        assert(complete_rows(next) =~= complete_rows(data).push(
            next.subrange(start as int, next.len() as int),
        ));
    } else {
        assert(next.len() / 16 == k);
        assert(next.len() % 16 != 0);
        assert forall|i: int| 0 <= i < k implies #[trigger] next.subrange(16 * i, 16 * i + 16)
            == data.subrange(16 * i, 16 * i + 16) by {
            assert(next.subrange(16 * i, 16 * i + 16) =~= data.subrange(16 * i, 16 * i + 16));
        }
        assert(complete_rows(next) =~= complete_rows(data));
    }
}

fn rows_equal(a: &Vec<u8>, b: &Vec<u8>) -> (r: bool)
    ensures
        r == (a@ == b@),
{
    if a.len() != b.len() {
        return false;
    }
    let mut i: usize = 0;
    while i < a.len()
        invariant
            a@.len() == b@.len(),
            i <= a@.len(),
            forall|j: int| 0 <= j < i ==> a@[j] == b@[j],
        decreases a@.len() - i,
    {
        if a[i] != b[i] {
            return false;
        }
        i = i + 1;
    }
    assert(a@ =~= b@);
    true
}

fn copy_bytes(v: &Vec<u8>) -> (r: Vec<u8>)
    ensures
        r@ == v@,
{
    let mut r: Vec<u8> = Vec::new();
    let mut i: usize = 0;
    while i < v.len()
        invariant
            i <= v@.len(),
            r@ == v@.subrange(0, i as int),
        decreases v@.len() - i,
    {
        r.push(v[i]);
        assert(r@ =~= v@.subrange(0, i + 1));
        i = i + 1;
    }
    assert(v@.subrange(0, v@.len() as int) =~= v@);
    r
}

/// The renderer of one stream: the current row, the last complete row and
/// whether a run of duplicates is being collapsed.
pub struct Dumper {
    buffer: Vec<u8>,
    offset: u64,
    previous_line: Option<Vec<u8>>,
    previous_line_collapsed: bool,
    consumed: Ghost<Seq<u8>>,
}

impl View for Dumper {
    type V = Seq<u8>;

    /// Every byte of the stream taken so far.
    closed spec fn view(&self) -> Seq<u8> {
        self.consumed@
    }
}

impl Dumper {
    pub closed spec fn wf(&self) -> bool {
        let data = self.consumed@;
        let start = line_start(data);
        &&& self.buffer@.len() == ROW_LEN
        &&& self.offset == data.len()
        &&& self.buffer@.subrange(0, data.len() - start) == data.subrange(
            start as int,
            data.len() as int,
        )
        &&& match self.previous_line {
            None => previous_row(data) == None::<Seq<u8>>,
            Some(v) => previous_row(data) == Some(v@),
        }
        &&& self.previous_line_collapsed == collapsed(data)
    }

    /// A renderer at the start of an empty stream.
    pub fn new() -> (r: Dumper)
        ensures
            r.wf(),
            r@ == Seq::<u8>::empty(),
    {
        let r = Dumper {
            buffer: vec![0u8; ROW_LEN],
            offset: 0,
            previous_line: None,
            previous_line_collapsed: false,
            consumed: Ghost(Seq::empty()),
        };
        assert(r.buffer@.subrange(0, 0) =~= Seq::<u8>::empty().subrange(0, 0));
        r
    }

    /// Bytes taken so far.
    pub fn position(&self) -> (r: u64)
        requires
            self.wf(),
        ensures
            r == self@.len(),
    {
        self.offset
    }

    /// How many bytes the next chunk may hold without crossing into the next row.
    pub fn read_window(&self) -> (r: usize)
        requires
            self.wf(),
        ensures
            r == window(self@),
            1 <= r <= ROW_LEN,
    {
        ROW_LEN - (self.offset % 16) as usize
    }
    /// Takes the next chunk of the stream, which ends at or before the end of
    /// the current row, and returns what is written for it.
    pub fn process_chunk(&mut self, chunk: &[u8]) -> (r: Vec<u8>)
        requires
            old(self).wf(),
            1 <= chunk@.len() <= window(old(self)@),
            old(self)@.len() + chunk@.len() <= u64::MAX,
        ensures
            final(self).wf(),
            final(self)@ == old(self)@ + chunk@,
            r@ == chunk_output(old(self)@, chunk@),
    {
        let ghost data = self@;
        let ghost start = line_start(data);
        let ghost next = data + chunk@;
        proof {
            lemma_rows_extend(data, chunk@);
        }
        let old_offset = self.offset;
        let fill: usize = (old_offset % 16) as usize;
        let n = chunk.len();
        let mut i: usize = 0;
        while i < n
            invariant
                i <= n,
                n == chunk@.len(),
                fill + n <= ROW_LEN,
                self.buffer@.len() == ROW_LEN,
                self.buffer@.subrange(0, fill as int) == old(self).buffer@.subrange(0, fill as int),
                self.previous_line == old(self).previous_line,
                self.previous_line_collapsed == old(self).previous_line_collapsed,
                self@ == data,
                self.offset == old_offset,
                fill == data.len() - start,
                forall|j: int| 0 <= j < i ==> self.buffer@[fill + j] == chunk@[j],
            decreases n - i,
        {
            proof {
                assert(self.buffer@.subrange(0, fill as int) =~= self.buffer@.update(
                    fill + i,
                    chunk@[i as int],
                ).subrange(0, fill as int));
            }
            self.buffer.set(fill + i, chunk[i]);
            i = i + 1;
        }
        let len = fill + n;
        let line_offset = old_offset / 16 * 16;
        let dirty = fill != 0;
        let finished = len == ROW_LEN;
        let row = Ghost(next.subrange(start as int, next.len() as int));
        assert(self.buffer@.subrange(0, len as int) =~= row@);
        let dup = if finished {
            match &self.previous_line {
                Some(v) => rows_equal(v, &self.buffer),
                None => false,
            }
        } else {
            false
        };
        assert(self.buffer@.subrange(0, 16) =~= self.buffer@);
        let mut out: Vec<u8> = Vec::new();
        if dirty {
            out.push(0x0d);
        }
        if dup {
            if !self.previous_line_collapsed {
                out.push(0x2a);
                if dirty {
                    push_clear_right(&mut out);
                }
                out.push(0x0a);
            } else if dirty {
                push_clear_right(&mut out);
            }
            self.previous_line_collapsed = true;
        } else {
            render_row(&mut out, &self.buffer, len, line_offset);
            if finished {
                out.push(0x0a);
                self.previous_line = Some(copy_bytes(&self.buffer));
                self.previous_line_collapsed = false;
            }
        }
        self.offset = old_offset + n as u64;
        self.consumed = Ghost(next);
        assert(out@ =~= chunk_output(data, chunk@));
        proof {
            let s2 = line_start(next);
            if finished {
                assert(s2 == next.len());
                assert(self.buffer@.subrange(0, 0) =~= next.subrange(s2 as int, next.len() as int));
            } else {
                assert(s2 == start);
                assert(self.buffer@.subrange(0, next.len() - s2) =~= next.subrange(
                    s2 as int,
                    next.len() as int,
                ));
            }
        }
        out
    }
    /// Takes the next stretch of the stream, of any length, cut at row
    /// boundaries into chunks, and returns what is written for it.
    pub fn feed(&mut self, input: &[u8]) -> (r: Vec<u8>)
        requires
            old(self).wf(),
            old(self)@.len() + input@.len() <= u64::MAX,
        ensures
            final(self).wf(),
            final(self)@ == old(self)@ + input@,
            r@ == feed_output(old(self)@, input@),
    {
        let mut out: Vec<u8> = Vec::new();
        let mut i: usize = 0;
        assert(input@.subrange(0, 0) =~= Seq::<u8>::empty());
        assert(old(self)@ + input@.subrange(0, 0) =~= old(self)@);
        assert(input@.subrange(0, input@.len() as int) =~= input@);
        while i < input.len()
            invariant
                i <= input@.len(),
                self.wf(),
                self@ == old(self)@ + input@.subrange(0, i as int),
                old(self)@.len() + input@.len() <= u64::MAX,
                out@ + feed_output(self@, input@.subrange(i as int, input@.len() as int))
                    == feed_output(old(self)@, input@),
            decreases input@.len() - i,
        {
            let w = self.read_window();
            let n: usize = if input.len() - i < w { input.len() - i } else { w };
            let chunk = vstd::slice::slice_subrange(input, i, i + n);
            let ghost rest = input@.subrange(i as int, input@.len() as int);
            let ghost before = self@;
            assert(rest.subrange(0, n as int) =~= chunk@);
            assert(rest.subrange(n as int, rest.len() as int) =~= input@.subrange(
                i + n,
                input@.len() as int,
            ));
            let mut part = self.process_chunk(chunk);
            let ghost pv = part@;
            let ghost o = out@;
            out.append(&mut part);
            assert(input@.subrange(0, i + n) =~= input@.subrange(0, i as int) + chunk@);
            assert(o + feed_output(before, rest) == o + (pv + feed_output(
                self@,
                input@.subrange(i + n, input@.len() as int),
            )));
            assert(o + (pv + feed_output(self@, input@.subrange(i + n, input@.len() as int)))
                =~= out@ + feed_output(self@, input@.subrange(i + n, input@.len() as int)));
            i = i + n;
        }
        assert(input@.subrange(i as int, input@.len() as int) =~= Seq::<u8>::empty());
        assert(out@ + Seq::<u8>::empty() =~= out@);
        out
    }

    /// What is written once the stream has ended: the line is closed.
    pub fn finish(&self) -> (r: Vec<u8>)
        ensures
            r@ == seq![0x0au8],
    {
        let mut out: Vec<u8> = Vec::new();
        out.push(0x0a);
        assert(out@ =~= seq![0x0au8]);
        out
    }
}

} // verus!
