//! The chart loader: turns the chart text into the grid and the header
//! tempo.
//!
//! The text is line oriented. The header block is the longest prefix of
//! lines of the shape `#command argument`; `BPM01:` sets the tempo and
//! `DIFFICULTY` must carry `0`, `1` or `2`. The body follows: a bare
//! integer line selects the current measure (the grid is extended with
//! empty measures up to it), a `TICK:notes` line appends the decoded
//! comma-separated tokens to that measure's tick slot, and a line
//! containing `END` terminates the body.

use vstd::prelude::*;
use crate::grid::{Chart, GridView, Measure, empty_measure_view, grid_of};
use crate::note::{NoteEvent, decode_spec, decode_token};

verus! {

/// A fatal loading error: `Decode` for a token or difficulty value that
/// cannot be decoded, `Structure` for a malformed line, a tick outside
/// `[0, 191]`, a tick line before any measure line, or a missing or zero
/// tempo.
#[derive(Clone, Copy, PartialEq, Eq, Structural, Debug)]
pub enum ChartError {
    Decode,
    Structure,
}

/// Whether a byte is an ASCII decimal digit.
pub open spec fn is_dec_digit(c: u8) -> bool {
    '0' as u8 <= c <= '9' as u8
}

/// The decimal value of a digit string, most significant digit first.
pub open spec fn dec_val(s: Seq<u8>) -> int
    decreases s.len(),
{
    if s.len() == 0 {
        0
    } else {
        dec_val(s.drop_last()) * 10 + (s.last() - '0' as u8)
    }
}

/// Whether a string is a nonempty run of decimal digits.
pub open spec fn all_dec_digits(s: Seq<u8>) -> bool {
    s.len() > 0 && forall|i: int| 0 <= i < s.len() ==> is_dec_digit(#[trigger] s[i])
}

/// The position of the first occurrence of `b` at or after `i`, or the
/// length of the string when there is none.
pub open spec fn find_byte_from(s: Seq<u8>, b: u8, i: int) -> int
    decreases s.len() - i,
{
    if i >= s.len() {
        s.len() as int
    } else if s[i] == b {
        i
    } else {
        find_byte_from(s, b, i + 1)
    }
}

/// A line with its trailing carriage return removed.
pub open spec fn strip_cr(s: Seq<u8>) -> Seq<u8> {
    if s.len() > 0 && s.last() == '\r' as u8 {
        s.drop_last()
    } else {
        s
    }
}

/// The lines of the text: split on each newline, with a trailing carriage
/// return removed from each line, and no empty line after a final newline.
pub open spec fn split_lines(s: Seq<u8>) -> Seq<Seq<u8>>
    decreases s.len(),
{
    if s.len() == 0 {
        Seq::empty()
    } else {
        let k = find_byte_from(s, '\n' as u8, 0);
        if 0 <= k < s.len() {
            seq![strip_cr(s.take(k))] + split_lines(s.skip(k + 1))
        } else {
            seq![strip_cr(s)]
        }
    }
}

/// The comma-separated segments of a notes list; empty segments are kept
/// here and skipped during decoding.
pub open spec fn split_commas(s: Seq<u8>) -> Seq<Seq<u8>>
    decreases s.len(),
{
    let k = find_byte_from(s, ',' as u8, 0);
    if 0 <= k < s.len() {
        seq![s.take(k)] + split_commas(s.skip(k + 1))
    } else {
        seq![s]
    }
}

/// A position with no match before it and a match (or the end) at it is
/// what `find_byte_from` returns.
pub proof fn lemma_find_byte_at(s: Seq<u8>, b: u8, i: int, k: int)
    requires
        0 <= i <= k <= s.len(),
        forall|j: int| i <= j < k ==> s[j] != b,
        k == s.len() || s[k] == b,
    ensures
        find_byte_from(s, b, i) == k,
    decreases k - i,
{
    if i < k {
        lemma_find_byte_at(s, b, i + 1, k);
    }
}

/// The value of a digit string is never negative.
pub proof fn lemma_dec_val_nonneg(s: Seq<u8>)
    requires
        forall|i: int| 0 <= i < s.len() ==> is_dec_digit(#[trigger] s[i]),
    ensures
        dec_val(s) >= 0,
    decreases s.len(),
{
    if s.len() > 0 {
        lemma_dec_val_nonneg(s.drop_last());
    }
}

/// The value of a digit string is at least the value of any of its
/// prefixes.
pub proof fn lemma_dec_val_prefix(s: Seq<u8>, k: int)
    requires
        forall|i: int| 0 <= i < s.len() ==> is_dec_digit(#[trigger] s[i]),
        0 <= k <= s.len(),
    ensures
        dec_val(s) >= dec_val(s.take(k)) >= 0,
    decreases s.len() - k,
{
    lemma_dec_val_nonneg(s.take(k));
    if k == s.len() {
        assert(s.take(k) =~= s);
    } else {
        lemma_dec_val_prefix(s, k + 1);
        assert(s.take(k + 1).drop_last() =~= s.take(k));
        assert(dec_val(s.take(k + 1)) == dec_val(s.take(k)) * 10 + (s[k] - '0' as u8));
    }
}

/// The command bytes `DIFFICULTY`.
pub open spec fn cmd_difficulty() -> Seq<u8> {
    seq!['D' as u8, 'I' as u8, 'F' as u8, 'F' as u8, 'I' as u8, 'C' as u8, 'U' as u8, 'L' as u8, 'T' as u8, 'Y' as u8]
}

/// The command bytes `BPM01:`.
pub open spec fn cmd_bpm() -> Seq<u8> {
    seq!['B' as u8, 'P' as u8, 'M' as u8, '0' as u8, '1' as u8, ':' as u8]
}

/// Whether a line has the header shape: a leading `#` and a space after
/// the command.
pub open spec fn is_header_line(line: Seq<u8>) -> bool {
    line.len() >= 1 && line[0] == '#' as u8 && find_byte_from(line, ' ' as u8, 1) < line.len()
}

/// The command of a header line: what stands between `#` and the first
/// space.
pub open spec fn header_cmd(line: Seq<u8>) -> Seq<u8> {
    line.subrange(1, find_byte_from(line, ' ' as u8, 1))
}

/// The argument of a header line: what follows the first space.
pub open spec fn header_arg(line: Seq<u8>) -> Seq<u8> {
    line.skip(find_byte_from(line, ' ' as u8, 1) + 1)
}

/// Processing of the header block from line `i` with the tempo read so
/// far: consumes header-shaped lines, validating `DIFFICULTY` and reading
/// `BPM01:`, and yields the index of the first body line and the tempo.
pub open spec fn header_run(lines: Seq<Seq<u8>>, i: int, bpm: u32) -> Result<(int, u32), ChartError>
    decreases lines.len() - i,
{
    if i < 0 || i >= lines.len() {
        Ok((lines.len() as int, bpm))
    } else if !is_header_line(lines[i]) {
        Ok((i, bpm))
    } else {
        let cmd = header_cmd(lines[i]);
        let arg = header_arg(lines[i]);
        if cmd == cmd_difficulty() {
            if arg == seq!['0' as u8] || arg == seq!['1' as u8] || arg == seq!['2' as u8] {
                header_run(lines, i + 1, bpm)
            } else {
                Err(ChartError::Decode)
            }
        } else if cmd == cmd_bpm() {
            if all_dec_digits(arg) && dec_val(arg) <= u32::MAX {
                header_run(lines, i + 1, dec_val(arg) as u32)
            } else {
                Err(ChartError::Structure)
            }
        } else {
            header_run(lines, i + 1, bpm)
        }
    }
}

/// The grid extended with empty measures so that measure `m` exists.
pub open spec fn extend_grid(g: GridView, m: int) -> GridView {
    if g.len() >= m + 1 {
        g
    } else {
        g + Seq::new((m + 1 - g.len()) as nat, |i: int| empty_measure_view())
    }
}

/// Whether a line contains the body terminator `END` anywhere.
pub open spec fn has_end_marker(line: Seq<u8>) -> bool {
    exists|i: int|
        0 <= i && i + 3 <= line.len() && #[trigger] line[i] == 'E' as u8 && line[i + 1] == 'N' as u8
            && line[i + 2] == 'D' as u8
}

/// The events of a list of token segments, in order: empty segments are
/// skipped, and any undecodable token fails the whole list.
pub open spec fn decode_segments(toks: Seq<Seq<u8>>) -> Result<Seq<NoteEvent>, ChartError>
    decreases toks.len(),
{
    if toks.len() == 0 {
        Ok(Seq::empty())
    } else {
        let head: Result<Seq<NoteEvent>, ChartError> = if toks[0].len() == 0 {
            Ok(Seq::empty())
        } else {
            match decode_spec(toks[0]) {
                Some(e) => Ok(seq![e]),
                None => Err(ChartError::Decode),
            }
        };
        match (head, decode_segments(toks.drop_first())) {
            (Ok(h), Ok(rest)) => Ok(h + rest),
            (Err(e), _) => Err(e),
            (_, Err(e)) => Err(e),
        }
    }
}

/// The grid with `evs` appended, in order, to the slot at measure `m`,
/// tick `t`.
pub open spec fn append_slot(g: GridView, m: int, t: int, evs: Seq<NoteEvent>) -> GridView {
    g.update(m, g[m].update(t, g[m][t] + evs))
}

/// Processing of the body block from line `i`, with the grid and current
/// measure built so far. Stops at the end of the lines or at a line
/// containing `END`; a bare integer line selects (and creates up to) that
/// measure; a `TICK:notes` line appends the decoded tokens to the slot.
pub open spec fn body_run(lines: Seq<Seq<u8>>, i: int, g: GridView, cur: int) -> Result<GridView, ChartError>
    decreases lines.len() - i,
{
    if i < 0 || i >= lines.len() {
        Ok(g)
    } else {
        let line = lines[i];
        if has_end_marker(line) {
            Ok(g)
        } else {
            let k = find_byte_from(line, ':' as u8, 0);
            if !(0 <= k < line.len()) {
                if all_dec_digits(line) && dec_val(line) <= usize::MAX {
                    body_run(lines, i + 1, extend_grid(g, dec_val(line)), dec_val(line))
                } else {
                    Err(ChartError::Structure)
                }
            } else {
                let tickpart = line.take(k);
                let notes = line.skip(k + 1);
                if !(all_dec_digits(tickpart) && dec_val(tickpart) <= usize::MAX) {
                    Err(ChartError::Structure)
                } else if dec_val(tickpart) > 191 {
                    Err(ChartError::Structure)
                } else if !(0 <= cur < g.len()) {
                    Err(ChartError::Structure)
                } else {
                    match decode_segments(split_commas(notes)) {
                        Ok(evs) => body_run(lines, i + 1, append_slot(g, cur, dec_val(tickpart), evs), cur),
                        Err(e) => Err(e),
                    }
                }
            }
        }
    }
}

/// The line contents a vector of line buffers stands for.
pub open spec fn lines_view(s: Seq<Vec<u8>>) -> Seq<Seq<u8>> {
    s.map(|i: int, v: Vec<u8>| v@)
}

/// First occurrence of `b` in `s` at or after `from`, or the length of
/// `s` when there is none.
fn find_from(s: &[u8], from: usize, b: u8) -> (r: usize)
    requires
        from <= s@.len(),
    ensures
        r == find_byte_from(s@, b, from as int),
        from <= r <= s@.len(),
        forall|j: int| from <= j < r ==> s@[j] != b,
        r < s@.len() ==> s@[r as int] == b,
{
    let mut p = from;
    while p < s.len()
        invariant
            from <= p <= s@.len(),
            forall|j: int| from <= j < p ==> s@[j] != b,
        decreases s@.len() - p,
    {
        if s[p] == b {
            proof {
                lemma_find_byte_at(s@, b, from as int, p as int);
            }
            return p;
        }
        p = p + 1;
    }
    proof {
        lemma_find_byte_at(s@, b, from as int, s@.len() as int);
    }
    p
}

/// Parses a nonempty decimal digit string into a `usize`, failing on any
/// other byte or on overflow.
fn parse_usize_bytes(s: &[u8]) -> (r: Option<usize>)
    ensures
        r matches Some(v) ==> all_dec_digits(s@) && dec_val(s@) == v as int,
        r is None ==> !(all_dec_digits(s@) && dec_val(s@) <= usize::MAX),
{
    if s.len() == 0 {
        return None;
    }
    let mut v: usize = 0;
    let mut j: usize = 0;
    while j < s.len()
        invariant
            j <= s@.len(),
            forall|i: int| 0 <= i < j ==> is_dec_digit(#[trigger] s@[i]),
            v as int == dec_val(s@.take(j as int)),
        decreases s@.len() - j,
    {
        let c = s[j];
        if c < '0' as u8 || c > '9' as u8 {
            return None;
        }
        let d = (c - '0' as u8) as usize;
        if v > (usize::MAX - d) / 10 {
            proof {
                if all_dec_digits(s@) {
                    assert(s@.take(j as int + 1).drop_last() =~= s@.take(j as int));
                    assert(dec_val(s@.take(j as int + 1)) == v as int * 10 + d);
                    lemma_dec_val_prefix(s@, j as int + 1);
                    assert(v as int >= (usize::MAX - d) / 10 + 1);
                    assert(((usize::MAX - d) / 10 + 1) * 10 > usize::MAX - d) by (nonlinear_arith);
                    assert(v as int * 10 + d > usize::MAX);
                }
            }
            return None;
        }
        proof {
            assert(v as int * 10 + d <= ((usize::MAX - d) / 10) * 10 + d);
            assert(((usize::MAX - d) / 10) * 10 <= usize::MAX - d) by (nonlinear_arith);
            assert(s@.take(j as int + 1).drop_last() =~= s@.take(j as int));
        }
        v = v * 10 + d;
        j = j + 1;
    }
    proof {
        assert(s@.take(s@.len() as int) =~= s@);
    }
    Some(v)
}

/// Parses a nonempty decimal digit string into a `u32`, failing on any
/// other byte or on overflow.
fn parse_u32_bytes(s: &[u8]) -> (r: Option<u32>)
    ensures
        r matches Some(v) ==> all_dec_digits(s@) && dec_val(s@) == v as int,
        r is None ==> !(all_dec_digits(s@) && dec_val(s@) <= u32::MAX),
{
    match parse_usize_bytes(s) {
        Some(v) => {
            if v <= 0xffff_ffff {
                Some(v as u32)
            } else {
                None
            }
        },
        None => None,
    }
}

/// Whether the line contains the `END` terminator anywhere.
fn has_end_marker_exec(s: &[u8]) -> (r: bool)
    ensures
        r == has_end_marker(s@),
{
    if s.len() < 3 {
        return false;
    }
    let mut p: usize = 0;
    while p <= s.len() - 3
        invariant
            s@.len() >= 3,
            p <= s@.len() - 2,
            forall|q: int| 0 <= q < p ==> !(#[trigger] s@[q] == 'E' as u8 && s@[q + 1] == 'N' as u8 && s@[q + 2] == 'D' as u8),
        decreases s@.len() - p,
    {
        if s[p] == 'E' as u8 && s[p + 1] == 'N' as u8 && s[p + 2] == 'D' as u8 {
            return true;
        }
        p = p + 1;
    }
    false
}

/// Splits the text into its lines, stripping a trailing carriage return
/// from each.
fn split_lines_exec(input: &[u8]) -> (r: Vec<Vec<u8>>)
    ensures
        lines_view(r@) == split_lines(input@),
{
    let mut lines: Vec<Vec<u8>> = Vec::new();
    proof {
        assert(input@.skip(0) =~= input@);
        assert(lines_view(lines@) =~= Seq::<Seq<u8>>::empty());
        assert(Seq::<Seq<u8>>::empty() + split_lines(input@) =~= split_lines(input@));
    }
    let mut pos: usize = 0;
    while pos < input.len()
        invariant
            pos <= input@.len(),
            split_lines(input@) == lines_view(lines@) + split_lines(input@.skip(pos as int)),
        decreases input@.len() - pos,
    {
        let ghost pre = lines_view(lines@);
        let ghost rest = input@.skip(pos as int);
        let k = find_from(input, pos, '\n' as u8);
        proof {
            assert(forall|j: int| 0 <= j < k - pos ==> rest[j] == s_at(input@, pos as int, j));
            assert(forall|j: int| 0 <= j < k - pos ==> rest[j] != '\n' as u8);
            if k < input@.len() {
                assert(rest[k - pos as int] == '\n' as u8);
            }
            lemma_find_byte_at(rest, '\n' as u8, 0, k - pos as int);
        }
        let end = if k > pos && input[k - 1] == '\r' as u8 {
            k - 1
        } else {
            k
        };
        let line_vec = vstd::slice::slice_to_vec(vstd::slice::slice_subrange(input, pos, end));
        lines.push(line_vec);
        let newpos = if k < input.len() {
            k + 1
        } else {
            input.len()
        };
        proof {
            let k0 = (k - pos) as int;
            if k < input@.len() {
                assert(strip_cr(rest.take(k0)) =~= input@.subrange(pos as int, end as int));
                assert(rest.skip(k0 + 1) =~= input@.skip(newpos as int));
                assert(split_lines(rest) == seq![strip_cr(rest.take(k0))] + split_lines(rest.skip(k0 + 1)));
            } else {
                assert(strip_cr(rest) =~= input@.subrange(pos as int, end as int));
                assert(split_lines(rest) == seq![strip_cr(rest)]);
                assert(input@.skip(newpos as int) =~= Seq::<u8>::empty());
            }
            assert(lines_view(lines@) =~= pre + seq![input@.subrange(pos as int, end as int)]);
            assert((pre + seq![input@.subrange(pos as int, end as int)]) + split_lines(input@.skip(newpos as int))
                =~= pre + (seq![input@.subrange(pos as int, end as int)] + split_lines(input@.skip(newpos as int))));
        }
        pos = newpos;
    }
    proof {
        assert(input@.skip(input@.len() as int) =~= Seq::<u8>::empty());
        assert(lines_view(lines@) + Seq::<Seq<u8>>::empty() =~= lines_view(lines@));
    }
    lines
}

/// An index helper for relating a suffix to the whole string.
pub open spec fn s_at(s: Seq<u8>, base: int, j: int) -> u8 {
    s[base + j]
}

/// Splits a notes list at each comma, keeping empty segments.
fn split_commas_exec(s: &[u8]) -> (r: Vec<Vec<u8>>)
    ensures
        lines_view(r@) == split_commas(s@),
{
    let mut segs: Vec<Vec<u8>> = Vec::new();
    proof {
        assert(s@.skip(0) =~= s@);
        assert(lines_view(segs@) =~= Seq::<Seq<u8>>::empty());
        assert(Seq::<Seq<u8>>::empty() + split_commas(s@) =~= split_commas(s@));
    }
    let mut pos: usize = 0;
    let mut k = find_from(s, 0, ',' as u8);
    while k < s.len()
        invariant
            pos <= k <= s@.len(),
            k == find_byte_from(s@, ',' as u8, pos as int),
            forall|j: int| pos <= j < k ==> s@[j] != ',' as u8,
            k < s@.len() ==> s@[k as int] == ',' as u8,
            split_commas(s@) == lines_view(segs@) + split_commas(s@.skip(pos as int)),
        decreases s@.len() - k,
    {
        let ghost pre = lines_view(segs@);
        let ghost rest = s@.skip(pos as int);
        proof {
            assert(forall|j: int| 0 <= j < k - pos ==> rest[j] == s_at(s@, pos as int, j));
            assert(rest[k - pos as int] == ',' as u8);
            lemma_find_byte_at(rest, ',' as u8, 0, k - pos as int);
            assert(rest.take(k - pos as int) =~= s@.subrange(pos as int, k as int));
            assert(rest.skip(k - pos as int + 1) =~= s@.skip(k as int + 1));
            assert(split_commas(rest) == seq![s@.subrange(pos as int, k as int)] + split_commas(s@.skip(k as int + 1)));
        }
        let seg = vstd::slice::slice_to_vec(vstd::slice::slice_subrange(s, pos, k));
        segs.push(seg);
        proof {
            assert(lines_view(segs@) =~= pre + seq![s@.subrange(pos as int, k as int)]);
            assert((pre + seq![s@.subrange(pos as int, k as int)]) + split_commas(s@.skip(k as int + 1))
                =~= pre + (seq![s@.subrange(pos as int, k as int)] + split_commas(s@.skip(k as int + 1))));
        }
        pos = k + 1;
        k = find_from(s, pos, ',' as u8);
    }
    let ghost pre = lines_view(segs@);
    let ghost rest = s@.skip(pos as int);
    proof {
        assert(forall|j: int| 0 <= j < s@.len() - pos ==> rest[j] == s_at(s@, pos as int, j));
        assert(forall|j: int| 0 <= j < s@.len() - pos ==> rest[j] != ',' as u8);
        lemma_find_byte_at(rest, ',' as u8, 0, s@.len() - pos as int);
        assert(rest =~= s@.subrange(pos as int, s@.len() as int));
        assert(split_commas(rest) == seq![rest]);
    }
    let tail = vstd::slice::slice_to_vec(vstd::slice::slice_subrange(s, pos, s.len()));
    segs.push(tail);
    proof {
        assert(lines_view(segs@) =~= pre + seq![rest]);
        assert(pre + seq![rest] =~= pre + split_commas(rest));
    }
    segs
}

/// Whether the command bytes are `DIFFICULTY`.
fn is_difficulty_cmd(s: &[u8]) -> (r: bool)
    ensures
        r == (s@ == cmd_difficulty()),
{
    let r = s.len() == 10 && s[0] == 'D' as u8 && s[1] == 'I' as u8 && s[2] == 'F' as u8
        && s[3] == 'F' as u8 && s[4] == 'I' as u8 && s[5] == 'C' as u8 && s[6] == 'U' as u8
        && s[7] == 'L' as u8 && s[8] == 'T' as u8 && s[9] == 'Y' as u8;
    proof {
        assert(cmd_difficulty().len() == 10);
        assert(cmd_difficulty()[0] == 'D' as u8 && cmd_difficulty()[1] == 'I' as u8
            && cmd_difficulty()[2] == 'F' as u8 && cmd_difficulty()[3] == 'F' as u8
            && cmd_difficulty()[4] == 'I' as u8 && cmd_difficulty()[5] == 'C' as u8
            && cmd_difficulty()[6] == 'U' as u8 && cmd_difficulty()[7] == 'L' as u8
            && cmd_difficulty()[8] == 'T' as u8 && cmd_difficulty()[9] == 'Y' as u8);
        if r {
            assert(s@ =~= cmd_difficulty());
        }
    }
    r
}

/// Whether the command bytes are `BPM01:`.
fn is_bpm_cmd(s: &[u8]) -> (r: bool)
    ensures
        r == (s@ == cmd_bpm()),
{
    let r = s.len() == 6 && s[0] == 'B' as u8 && s[1] == 'P' as u8 && s[2] == 'M' as u8
        && s[3] == '0' as u8 && s[4] == '1' as u8 && s[5] == ':' as u8;
    proof {
        assert(cmd_bpm().len() == 6);
        assert(cmd_bpm()[0] == 'B' as u8 && cmd_bpm()[1] == 'P' as u8 && cmd_bpm()[2] == 'M' as u8
            && cmd_bpm()[3] == '0' as u8 && cmd_bpm()[4] == '1' as u8 && cmd_bpm()[5] == ':' as u8);
        if r {
            assert(s@ =~= cmd_bpm());
        }
    }
    r
}

/// Processes the header block of the split lines: returns the index of
/// the first body line and the tempo, or the error the header raises.
fn run_header(lines: &Vec<Vec<u8>>) -> (r: Result<(usize, u32), ChartError>)
    ensures
        r matches Ok(p) ==> p.0 <= lines@.len()
            && header_run(lines_view(lines@), 0, 0) == Ok::<(int, u32), ChartError>((p.0 as int, p.1)),
        r matches Err(e) ==> header_run(lines_view(lines@), 0, 0) == Err::<(int, u32), ChartError>(e),
{
    let ghost lv = lines_view(lines@);
    let mut i: usize = 0;
    let mut bpm: u32 = 0;
    while i < lines.len()
        invariant
            i <= lines@.len(),
            lv == lines_view(lines@),
            header_run(lv, 0, 0) == header_run(lv, i as int, bpm),
        decreases lines@.len() - i,
    {
        let line = &lines[i];
        proof {
            assert(lv[i as int] == lines@[i as int]@);
        }
        if line.len() == 0 || line[0] != '#' as u8 {
            return Ok((i, bpm));
        }
        let sp = find_from(line.as_slice(), 1, ' ' as u8);
        if sp == line.len() {
            return Ok((i, bpm));
        }
        assert(is_header_line(lv[i as int]));
        let cmd = vstd::slice::slice_subrange(line.as_slice(), 1, sp);
        proof {
            assert(cmd@ == header_cmd(lv[i as int]));
        }
        if is_difficulty_cmd(cmd) {
            let ghost arg = header_arg(lv[i as int]);
            let ok = line.len() == sp + 2 && (line[sp + 1] == '0' as u8 || line[sp + 1] == '1' as u8
                || line[sp + 1] == '2' as u8);
            proof {
                assert(arg == lv[i as int].skip(sp as int + 1));
                assert(arg.len() == lv[i as int].len() - sp - 1);
                if ok {
                    assert(arg[0] == lv[i as int][sp as int + 1]);
                    if line@[sp as int + 1] == '0' as u8 {
                        assert(arg =~= seq!['0' as u8]);
                    } else if line@[sp as int + 1] == '1' as u8 {
                        assert(arg =~= seq!['1' as u8]);
                    } else {
                        assert(arg =~= seq!['2' as u8]);
                    }
                } else {
                    assert(seq!['0' as u8].len() == 1 && seq!['0' as u8][0] == '0' as u8);
                    assert(seq!['1' as u8].len() == 1 && seq!['1' as u8][0] == '1' as u8);
                    assert(seq!['2' as u8].len() == 1 && seq!['2' as u8][0] == '2' as u8);
                    if arg.len() == 1 {
                        assert(arg[0] == lv[i as int][sp as int + 1]);
                    }
                }
            }
            if !ok {
                return Err(ChartError::Decode);
            }
        } else if is_bpm_cmd(cmd) {
            let argsl = vstd::slice::slice_subrange(line.as_slice(), sp + 1, line.len());
            proof {
                assert(argsl@ == header_arg(lv[i as int]));
            }
            match parse_u32_bytes(argsl) {
                Some(v) => {
                    bpm = v;
                },
                None => {
                    return Err(ChartError::Structure);
                },
            }
        }
        i = i + 1;
    }
    Ok((i, bpm))
}

/// Decodes a list of token segments into note events, skipping empty
/// segments and failing on the first undecodable token.
fn decode_note_list(segs: &Vec<Vec<u8>>) -> (r: Result<Vec<NoteEvent>, ChartError>)
    ensures
        r matches Ok(evs) ==> decode_segments(lines_view(segs@)) == Ok::<Seq<NoteEvent>, ChartError>(evs@),
        r matches Err(e) ==> decode_segments(lines_view(segs@)) == Err::<Seq<NoteEvent>, ChartError>(e),
{
    let ghost segv = lines_view(segs@);
    let mut out: Vec<NoteEvent> = Vec::new();
    proof {
        assert(segv.skip(0) =~= segv);
    }
    let mut j: usize = 0;
    while j < segs.len()
        invariant
            j <= segs@.len(),
            segv == lines_view(segs@),
            decode_segments(segv) == (match decode_segments(segv.skip(j as int)) {
                Ok(rest) => Ok::<Seq<NoteEvent>, ChartError>(out@ + rest),
                Err(e) => Err(e),
            }),
        decreases segs@.len() - j,
    {
        let ghost suffix = segv.skip(j as int);
        proof {
            assert(suffix[0] == segs@[j as int]@);
            assert(suffix.drop_first() =~= segv.skip(j as int + 1));
        }
        let seg = &segs[j];
        if seg.len() == 0 {
            proof {
                match decode_segments(segv.skip(j as int + 1)) {
                    Ok(rest) => {
                        assert(out@ + (Seq::<NoteEvent>::empty() + rest) =~= out@ + rest);
                    },
                    Err(_) => {},
                }
            }
        } else {
            match decode_token(seg.as_slice()) {
                Err(_) => {
                    return Err(ChartError::Decode);
                },
                Ok(ev) => {
                    let ghost opre = out@;
                    out.push(ev);
                    proof {
                        match decode_segments(segv.skip(j as int + 1)) {
                            Ok(rest) => {
                                assert(opre.push(ev) + rest =~= opre + (seq![ev] + rest));
                            },
                            Err(_) => {},
                        }
                    }
                },
            }
        }
        j = j + 1;
    }
    proof {
        assert(segv.skip(segs@.len() as int) =~= Seq::<Seq<u8>>::empty());
        assert(out@ + Seq::<NoteEvent>::empty() =~= out@);
    }
    Ok(out)
}

/// Processes the body block of the split lines from line `start`,
/// building the grid of measures.
fn run_body(lines: &Vec<Vec<u8>>, start: usize) -> (r: Result<Vec<Measure>, ChartError>)
    requires
        start <= lines@.len(),
    ensures
        r matches Ok(ms) ==> Chart::grid_wf(grid_of(ms@))
            && body_run(lines_view(lines@), start as int, Seq::empty(), 0) == Ok::<GridView, ChartError>(grid_of(ms@)),
        r matches Err(e) ==> body_run(lines_view(lines@), start as int, Seq::empty(), 0) == Err::<GridView, ChartError>(e),
{
    let ghost lv = lines_view(lines@);
    let mut measures: Vec<Measure> = Vec::new();
    let mut cur: usize = 0;
    let mut i: usize = start;
    proof {
        assert(grid_of(measures@) =~= Seq::<Seq<Seq<NoteEvent>>>::empty());
    }
    while i < lines.len()
        invariant
            i <= lines@.len(),
            lv == lines_view(lines@),
            Chart::grid_wf(grid_of(measures@)),
            body_run(lv, start as int, Seq::empty(), 0) == body_run(lv, i as int, grid_of(measures@), cur as int),
        decreases lines@.len() - i,
    {
        let ghost g0 = grid_of(measures@);
        let line = &lines[i];
        proof {
            assert(lv[i as int] == lines@[i as int]@);
        }
        if has_end_marker_exec(line.as_slice()) {
            return Ok(measures);
        }
        let k = find_from(line.as_slice(), 0, ':' as u8);
        if k == line.len() {
            match parse_usize_bytes(line.as_slice()) {
                None => {
                    return Err(ChartError::Structure);
                },
                Some(msel) => {
                    while measures.len() <= msel
                        invariant
                            measures@.len() >= g0.len(),
                            measures@.len() <= msel + 1 || measures@.len() == g0.len(),
                            forall|j: int| 0 <= j < g0.len() ==> grid_of(measures@)[j] == g0[j],
                            forall|j: int| g0.len() <= j < measures@.len() ==> grid_of(measures@)[j] == empty_measure_view(),
                        decreases msel + 1 - measures@.len(),
                    {
                        let ghost mpre = measures@;
                        measures.push(Measure::new());
                        proof {
                            assert(forall|j: int| 0 <= j < mpre.len() ==> grid_of(measures@)[j] == grid_of(mpre)[j]);
                            assert(grid_of(measures@)[mpre.len() as int] == empty_measure_view());
                            assert(forall|j: int| 0 <= j < g0.len() ==> grid_of(measures@)[j] == g0[j]);
                            assert(forall|j: int| g0.len() <= j < mpre.len() ==> grid_of(mpre)[j] == empty_measure_view());
                            assert forall|j: int| g0.len() <= j < measures@.len() implies grid_of(measures@)[j] == empty_measure_view() by {
                                if j < mpre.len() {
                                    assert(grid_of(measures@)[j] == grid_of(mpre)[j]);
                                    assert(grid_of(mpre)[j] == empty_measure_view());
                                } else {
                                    assert(j == mpre.len());
                                }
                            }
                        }
                    }
                    cur = msel;
                    proof {
                        assert(grid_of(measures@) =~= extend_grid(g0, msel as int));
                        assert(Chart::grid_wf(grid_of(measures@)));
                    }
                },
            }
        } else {
            let tick_slice = vstd::slice::slice_subrange(line.as_slice(), 0, k);
            let notes_slice = vstd::slice::slice_subrange(line.as_slice(), k + 1, line.len());
            proof {
                assert(tick_slice@ == lv[i as int].take(k as int));
                assert(notes_slice@ == lv[i as int].skip(k as int + 1));
            }
            match parse_usize_bytes(tick_slice) {
                None => {
                    return Err(ChartError::Structure);
                },
                Some(tick) => {
                    if tick > 191 {
                        return Err(ChartError::Structure);
                    }
                    if cur >= measures.len() {
                        return Err(ChartError::Structure);
                    }
                    let segs = split_commas_exec(notes_slice);
                    let evs = match decode_note_list(&segs) {
                        Err(e) => {
                            return Err(e);
                        },
                        Ok(evs) => evs,
                    };
                    proof {
                        assert(grid_of(measures@) =~~= append_slot(g0, cur as int, tick as int, evs@.take(0)));
                    }
                    let mut j: usize = 0;
                    while j < evs.len()
                        invariant
                            j <= evs@.len(),
                            cur < measures@.len(),
                            measures@.len() == g0.len(),
                            tick <= 191,
                            Chart::grid_wf(g0),
                            Chart::grid_wf(grid_of(measures@)),
                            grid_of(measures@) == append_slot(g0, cur as int, tick as int, evs@.take(j as int)),
                        decreases evs@.len() - j,
                    {
                        let ghost acc = evs@.take(j as int);
                        let ev = evs[j];
                        let ghost mpre = measures@;
                        let mut meas = measures.remove(cur);
                        proof {
                            assert(meas@ == grid_of(mpre)[cur as int]);
                            assert(meas@.len() == 192);
                            assert(meas.ticks@.len() == 192);
                        }
                        let ghost tpre = meas.ticks@;
                        let mut slot = meas.ticks.remove(tick);
                        slot.push(ev);
                        meas.ticks.insert(tick, slot);
                        proof {
                            assert(meas.ticks@ =~= tpre.update(tick as int, slot));
                            assert(meas@ =~~= grid_of(mpre)[cur as int].update(tick as int, grid_of(mpre)[cur as int][tick as int].push(ev)));
                        }
                        measures.insert(cur, meas);
                        proof {
                            assert(measures@ =~= mpre.update(cur as int, meas));
                            assert(grid_of(measures@) =~~= grid_of(mpre).update(cur as int, meas@));
                            assert(grid_of(mpre)[cur as int][tick as int] == g0[cur as int][tick as int] + acc);
                            assert(evs@.take(j as int + 1) =~= acc.push(ev));
                            assert((g0[cur as int][tick as int] + acc).push(ev) =~= g0[cur as int][tick as int] + acc.push(ev));
                            assert(grid_of(measures@) =~~= append_slot(g0, cur as int, tick as int, evs@.take(j as int + 1)));
                            assert(Chart::grid_wf(grid_of(measures@)));
                        }
                        j = j + 1;
                    }
                    proof {
                        assert(evs@.take(evs@.len() as int) =~= evs@);
                    }
                },
            }
        }
        i = i + 1;
    }
    Ok(measures)
}

/// Loads the whole chart text: splits it into lines, reads the header
/// tempo (validating the difficulty value), builds the grid from the body
/// lines, and rejects a chart whose tempo is missing or zero. Returns
/// exactly what `parse_result` assigns to the text.
pub fn parse_chart(input: &[u8]) -> (r: Result<Chart, ChartError>)
    ensures
        r matches Ok(c) ==> c.wf() && parse_result(input@) == Ok::<(GridView, u32), ChartError>((c.grid(), c.bpm)),
        r matches Err(e) ==> parse_result(input@) == Err::<(GridView, u32), ChartError>(e),
{
    let lines = split_lines_exec(input);
    match run_header(&lines) {
        Err(e) => Err(e),
        Ok((start, bpm)) => {
            match run_body(&lines, start) {
                Err(e) => Err(e),
                Ok(measures) => {
                    if bpm >= 1 {
                        Ok(Chart { measures, bpm })
                    } else {
                        Err(ChartError::Structure)
                    }
                },
            }
        },
    }
}

/// What loading the whole chart text yields: the grid and the tempo, or
/// the error that aborts the conversion. A missing or zero tempo is a
/// structure error.
pub open spec fn parse_result(input: Seq<u8>) -> Result<(GridView, u32), ChartError> {
    let lines = split_lines(input);
    match header_run(lines, 0, 0) {
        Err(e) => Err(e),
        Ok((i, bpm)) => match body_run(lines, i, Seq::empty(), 0) {
            Err(e) => Err(e),
            Ok(g) => if bpm >= 1 {
                Ok((g, bpm))
            } else {
                Err(ChartError::Structure)
            },
        },
    }
}

} // verus!
