//! Text of the source that an analysis shows beside its nodes: the lines and
//! columns that a range of positions covers.

use vstd::prelude::*;
use vstd::utf8::{
    valid_utf8, decode_utf8, encode_utf8, is_continuation_byte, is_ascii_chars,
    is_ascii_chars_encode_utf8, encode_utf8_valid_utf8, valid_utf8_split, valid_utf8_concat,
    is_char_boundary_start_end_of_seq, is_char_boundary_iff_not_is_continuation_byte,
    length_of_first_scalar, pop_first_scalar,
};
use crate::text::{trim_white_space, str_from_utf8, str_trim, string_push_str};

verus! {

/// The position of the first line feed at or after byte `i`, or the end of `b`.
pub open spec fn line_end(b: Seq<u8>, i: int) -> int
    decreases b.len() - i,
{
    if i >= b.len() {
        b.len() as int
    } else if b[i] == 10 {
        i
    } else {
        line_end(b, i + 1)
    }
}

/// `line_end` lies between `i` and the end, and no line feed comes before it.
pub proof fn lemma_line_end(b: Seq<u8>, i: int)
    requires
        0 <= i <= b.len(),
    ensures
        i <= line_end(b, i) <= b.len(),
        line_end(b, i) < b.len() ==> b[line_end(b, i)] == 10,
        forall|k: int| i <= k < line_end(b, i) ==> b[k] != 10,
    decreases b.len() - i,
{
    if i < b.len() && b[i] != 10 {
        lemma_line_end(b, i + 1);
    }
}

/// A line without the carriage return that ended it, if it has one.
pub open spec fn without_cr(s: Seq<u8>) -> Seq<u8> {
    if s.len() > 0 && s.last() == 13 {
        s.drop_last()
    } else {
        s
    }
}

/// The lines of `b` that begin at or after byte `i`: the text is cut at each
/// line feed, a line that a line feed ends loses one carriage return before
/// it, and a last line feed opens no empty line.
pub open spec fn lines_from(b: Seq<u8>, i: int) -> Seq<Seq<u8>>
    decreases b.len() - i,
{
    if i < 0 || i >= b.len() {
        seq![]
    } else {
        let e = line_end(b, i);
        proof {
            lemma_line_end(b, i);
        }
        if e < b.len() {
            seq![without_cr(b.subrange(i, e))] + lines_from(b, e + 1)
        } else {
            seq![b.subrange(i, b.len() as int)]
        }
    }
}

/// The lines of the text whose UTF-8 bytes are `b`, as `str::lines` gives them.
pub open spec fn source_lines(b: Seq<u8>) -> Seq<Seq<u8>> {
    lines_from(b, 0)
}

/// The bytes `b[s..e]` of each range.
pub open spec fn range_texts(b: Seq<u8>, ranges: Seq<(usize, usize)>) -> Seq<Seq<u8>> {
    Seq::new(ranges.len(), |k: int| b.subrange(ranges[k].0 as int, ranges[k].1 as int))
}

/// Where a line of `b` may begin and end: it begins the text or follows a
/// line feed, and it ends the text or stops at a line feed or at the carriage
/// return of a line feed.
pub open spec fn line_range_ok(b: Seq<u8>, s: int, e: int) -> bool {
    &&& 0 <= s <= e <= b.len()
    &&& s == 0 || b[s - 1] == 10
    &&& e == b.len() || b[e] == 10 || b[e] == 13
}

/// The byte ranges of the lines of `bytes`.
fn line_ranges(bytes: &[u8]) -> (r: Vec<(usize, usize)>)
    ensures
        range_texts(bytes@, r@) == source_lines(bytes@),
        forall|k: int| 0 <= k < r@.len() ==> #[trigger] line_range_ok(bytes@, r@[k].0 as int, r@[k].1 as int),
{
    let ghost b = bytes@;
    let n = bytes.len();
    let mut r: Vec<(usize, usize)> = Vec::new();
    let mut pos: usize = 0;
    while pos < n
        invariant
            b == bytes@,
            n == b.len(),
            pos <= n,
            pos < n ==> (pos == 0 || b[pos - 1] == 10),
            range_texts(b, r@) + lines_from(b, pos as int) == source_lines(b),
            forall|k: int| 0 <= k < r@.len() ==> #[trigger] line_range_ok(b, r@[k].0 as int, r@[k].1 as int),
        decreases n - pos,
    {
        let mut e = pos;
        while e < n && bytes[e] != 10
            invariant
                b == bytes@,
                n == b.len(),
                pos <= e <= n,
                line_end(b, pos as int) == line_end(b, e as int),
            decreases n - e,
        {
            e = e + 1;
        }
        proof {
            lemma_line_end(b, pos as int);
        }
        let ghost before = r@;
        if e < n {
            let mut stop = e;
            if e > pos && bytes[e - 1] == 13 {
                stop = e - 1;
            }
            assert(b.subrange(pos as int, stop as int) =~= without_cr(b.subrange(pos as int, e as int)));
            r.push((pos, stop));
            assert(range_texts(b, r@) =~= range_texts(b, before).push(b.subrange(pos as int, stop as int)));
            assert(range_texts(b, r@) + lines_from(b, e + 1) =~= range_texts(b, before) + lines_from(b, pos as int));
            pos = e + 1;
        } else {
            r.push((pos, n));
            assert(range_texts(b, r@) =~= range_texts(b, before).push(b.subrange(pos as int, n as int)));
            assert(range_texts(b, r@) + lines_from(b, n as int) =~= range_texts(b, before) + lines_from(b, pos as int));
            pos = n;
        }
    }
    assert(range_texts(b, r@) + lines_from(b, pos as int) =~= range_texts(b, r@));
    r
}

/// The `i`-th byte of `s` starts a character, or `i` is past its end.
pub open spec fn starts_char(s: Seq<u8>, i: int) -> bool {
    i >= s.len() || !is_continuation_byte(s[i])
}

/// `x`, or `bound` where `x` is larger.
pub open spec fn at_most(x: int, bound: int) -> int {
    if x < bound {
        x
    } else {
        bound
    }
}

/// Line `k` of a range that ends at column `ec` of line `el`: cut after
/// `ec` bytes when it is the last line.
pub open spec fn end_part(line: Seq<u8>, k: int, el: int, ec: int) -> Seq<u8> {
    if k == el {
        line.take(at_most(ec, line.len() as int))
    } else {
        line
    }
}

/// The bytes skipped on the first line of a range that starts at column `sc`
/// (columns count from 1; 0 counts as 1).
pub open spec fn start_skip(sc: int) -> int {
    if sc >= 1 {
        sc - 1
    } else {
        0
    }
}

/// What line `k` shows of the range from column `sc` of line `sl` to column
/// `ec` of line `el`.
pub open spec fn shown_part(line: Seq<u8>, k: int, sl: int, sc: int, el: int, ec: int) -> Seq<u8> {
    let l1 = end_part(line, k, el, ec);
    if k == sl {
        l1.skip(at_most(start_skip(sc), l1.len() as int))
    } else {
        l1
    }
}

/// What lines `k..=el` show of the range, for those of them that exist
/// (lines count from 1).
pub open spec fn shown_lines(lines: Seq<Seq<u8>>, k: int, sl: int, sc: int, el: int, ec: int) -> Seq<Seq<u8>>
    decreases el + 1 - k,
{
    if k < 1 || k > el || k > lines.len() {
        seq![]
    } else {
        seq![shown_part(lines[k - 1], k, sl, sc, el, ec)] + shown_lines(lines, k + 1, sl, sc, el, ec)
    }
}

/// The pieces joined with a line feed between each two.
pub open spec fn join_lines(p: Seq<Seq<u8>>) -> Seq<u8>
    decreases p.len(),
{
    if p.len() == 0 {
        seq![]
    } else if p.len() == 1 {
        p[0]
    } else {
        join_lines(p.drop_last()) + seq![10u8] + p.last()
    }
}

/// The text (UTF-8 bytes `b`) from column `sc` of line `sl` to column `ec` of
/// line `el`, lines joined by line feeds, without the white space around it;
/// empty unless `1 <= sl <= el`. Columns count bytes from 1.
pub open spec fn source_range(b: Seq<u8>, sl: int, sc: int, el: int, ec: int) -> Seq<char> {
    if sl < 1 || el < 1 || sl > el {
        seq![]
    } else {
        trim_white_space(decode_utf8(join_lines(shown_lines(source_lines(b), sl, sl, sc, el, ec))))
    }
}

/// The columns of the range cut its first and last lines between two
/// characters, never inside one.
pub open spec fn cuts_between_chars(b: Seq<u8>, sl: int, sc: int, el: int, ec: int) -> bool {
    let lines = source_lines(b);
    1 <= sl <= el ==> {
        &&& el <= lines.len() ==> starts_char(lines[el - 1], at_most(ec, lines[el - 1].len() as int))
        &&& sl <= lines.len() ==> {
            let l1 = end_part(lines[sl - 1], sl, el, ec);
            starts_char(l1, at_most(start_skip(sc), l1.len() as int))
        }
    }
}

/// A valid UTF-8 text cut where a character starts gives two valid texts.
proof fn lemma_cut_valid(s: Seq<u8>, i: int)
    requires
        valid_utf8(s),
        0 <= i <= s.len(),
        starts_char(s, i),
    ensures
        valid_utf8(s.take(i)),
        valid_utf8(s.skip(i)),
{
    if i == s.len() {
        is_char_boundary_start_end_of_seq(s);
    } else {
        is_char_boundary_iff_not_is_continuation_byte(s, i);
    }
    valid_utf8_split(s, i);
    assert(s.take(i) =~= s.subrange(0, i));
    assert(s.skip(i) =~= s.subrange(i, s.len() as int));
}

/// Each line of a valid UTF-8 text is valid UTF-8.
proof fn lemma_line_valid(b: Seq<u8>, s: int, e: int)
    requires
        valid_utf8(b),
        line_range_ok(b, s, e),
    ensures
        valid_utf8(b.subrange(s, e)),
{
    if s > 0 {
        lemma_cut_valid(b, s - 1);
        let t = b.skip(s - 1);
        assert(t[0] == 10);
        assert(length_of_first_scalar(t) == 1);
        assert(pop_first_scalar(t) =~= b.skip(s));
    } else {
        assert(b.skip(0) =~= b);
    }
    let c = b.skip(s);
    lemma_cut_valid(c, e - s);
    assert(c.take(e - s) =~= b.subrange(s, e));
}

/// A line feed alone is valid UTF-8.
proof fn lemma_line_feed_valid()
    ensures
        valid_utf8(seq![10u8]),
{
    let c = seq!['\n'];
    assert(is_ascii_chars(c));
    is_ascii_chars_encode_utf8(c);
    encode_utf8_valid_utf8(c);
    assert(encode_utf8(c) =~= seq![10u8]);
}

/// Joining one piece more adds a line feed and the piece, after the first.
proof fn lemma_join_push(acc: Seq<Seq<u8>>, p: Seq<u8>)
    ensures
        join_lines(acc.push(p)) == if acc.len() == 0 {
            p
        } else {
            join_lines(acc) + seq![10u8] + p
        },
{
    assert(acc.push(p).drop_last() =~= acc);
}

/// No line of the range is shown past the last line of the text or of the
/// range.
proof fn lemma_shown_lines_end(lines: Seq<Seq<u8>>, k: int, sl: int, sc: int, el: int, ec: int)
    requires
        k > el || k > lines.len(),
    ensures
        shown_lines(lines, k, sl, sc, el, ec) == Seq::<Seq<u8>>::empty(),
{
}

/// The source text from column `start_col` of line `start_line` to column
/// `end_col` of line `end_line` (lines and columns count from 1, columns in
/// bytes), the lines joined by line feeds and the white space around the
/// whole removed. Lines past the end of the source show nothing, columns past
/// the end of a line stop at its end, and the text is empty when a line
/// number is 0 or the range ends before it starts.
pub fn get_source_range(source: &str, start_line: u32, start_col: u32, end_line: u32, end_col: u32) -> (r: String)
    requires
        cuts_between_chars(encode_utf8(source@), start_line as int, start_col as int, end_line as int, end_col as int),
    ensures
        r@ == source_range(encode_utf8(source@), start_line as int, start_col as int, end_line as int, end_col as int),
{
    if start_line == 0 || end_line == 0 || start_line > end_line {
        return String::new();
    }
    let bytes = source.as_bytes();
    let ghost b = bytes@;
    let ghost sl = start_line as int;
    let ghost sc = start_col as int;
    let ghost el = end_line as int;
    let ghost ec = end_col as int;
    proof {
        encode_utf8_valid_utf8(source@);
        lemma_line_feed_valid();
    }
    let ranges = line_ranges(bytes);
    let ghost lines = source_lines(b);
    let n = ranges.len();
    let last: u64 = if (end_line as u64) < (n as u64) { end_line as u64 } else { n as u64 };
    let mut joined: Vec<u8> = Vec::new();
    let mut k: u64 = start_line as u64;
    let ghost mut acc: Seq<Seq<u8>> = seq![];
    while k <= last
        invariant
            b == bytes@,
            b == encode_utf8(source@),
            valid_utf8(b),
            valid_utf8(seq![10u8]),
            lines == source_lines(b),
            range_texts(b, ranges@) == lines,
            forall|j: int| 0 <= j < ranges@.len() ==> #[trigger] line_range_ok(b, ranges@[j].0 as int, ranges@[j].1 as int),
            n == ranges@.len(),
            1 <= sl <= el,
            sl == start_line,
            sc == start_col,
            el == end_line,
            ec == end_col,
            cuts_between_chars(b, sl, sc, el, ec),
            last <= el,
            last <= n,
            sl <= k,
            k <= last + 1 || k == sl,
            acc.len() == k - sl,
            acc + shown_lines(lines, k as int, sl, sc, el, ec) == shown_lines(lines, sl, sl, sc, el, ec),
            joined@ == join_lines(acc),
            valid_utf8(joined@),
        decreases last + 1 - k,
    {
        let (s, e) = ranges[(k - 1) as usize];
        let ghost line = b.subrange(s as int, e as int);
        assert(line == lines[k - 1]) by {
            assert(range_texts(b, ranges@)[k - 1] == line);
        }
        assert(line_range_ok(b, s as int, e as int));
        let mut to = e;
        if k == end_line as u64 {
            let width = e - s;
            let keep: usize = if (end_col as usize) < width { end_col as usize } else { width };
            to = s + keep;
        }
        let ghost l1 = end_part(line, k as int, el, ec);
        assert(l1 =~= b.subrange(s as int, to as int));
        let mut from = s;
        if k == start_line as u64 {
            let skip_cols: usize = if start_col >= 1 { (start_col - 1) as usize } else { 0 };
            let width = to - s;
            let skip: usize = if skip_cols < width { skip_cols } else { width };
            from = s + skip;
        }
        let ghost piece = b.subrange(from as int, to as int);
        assert(piece =~= shown_part(line, k as int, sl, sc, el, ec));
        proof {
            lemma_line_valid(b, s as int, e as int);
            if k == end_line {
                lemma_cut_valid(line, (to - s) as int);
            }
            if k == start_line {
                lemma_cut_valid(l1, (from - s) as int);
            }
            assert(l1.skip((from - s) as int) =~= piece);
        }
        let ghost before = joined@;
        if k > start_line as u64 {
            joined.push(10);
        }
        let mut i = from;
        while i < to
            invariant
                b == bytes@,
                from <= i <= to <= b.len(),
                joined@ == (if k > start_line { before + seq![10u8] } else { before }) + b.subrange(from as int, i as int),
            decreases to - i,
        {
            joined.push(bytes[i]);
            i = i + 1;
            assert(joined@ =~= (if k > start_line { before + seq![10u8] } else { before }) + b.subrange(from as int, i as int));
        }
        proof {
            lemma_join_push(acc, piece);
            if k > start_line {
                valid_utf8_concat(before, seq![10u8]);
                valid_utf8_concat(before + seq![10u8], piece);
            } else {
                assert(before =~= Seq::<u8>::empty());
                assert(joined@ =~= piece);
            }
            assert(acc.push(piece) + shown_lines(lines, k + 1, sl, sc, el, ec) =~= acc + shown_lines(lines, k as int, sl, sc, el, ec));
            acc = acc.push(piece);
        }
        k = k + 1;
    }
    proof {
        lemma_shown_lines_end(lines, k as int, sl, sc, el, ec);
        assert(acc + Seq::<Seq<u8>>::empty() =~= acc);
    }
    match str_from_utf8(joined.as_slice()) {
        Some(text) => {
            let trimmed = str_trim(text);
            let mut r = String::new();
            string_push_str(&mut r, trimmed);
            assert(r@ =~= trimmed@);
            r
        },
        None => String::new(),
    }
}

} // verus!
