use vstd::prelude::*;

use crate::bytes::sub_vec;

verus! {

/// The two shell quote characters that the textual process lister may leave
/// inside a whitespace-split command line.
pub open spec fn is_quote(b: u8) -> bool {
    b == 39 || b == 34
}

/// Does token `t` close a quoted group opened with `c`? The opening token
/// itself closes the group only when the quote is not its sole byte.
pub open spec fn closes_quote(t: Seq<u8>, c: u8, opening: bool) -> bool {
    t.len() > 0 && t.last() == c && (!opening || t.len() >= 2)
}

/// Index of the token that closes a quoted group opened at `x` with `c`, or
/// the token count when no token closes it.
pub open spec fn close_index(toks: Seq<Seq<u8>>, x: int, c: u8, opening: bool) -> int
    decreases toks.len() - x,
{
    if x < 0 || x >= toks.len() {
        toks.len() as int
    } else if closes_quote(toks[x], c, opening) {
        x
    } else {
        close_index(toks, x + 1, c, false)
    }
}

pub proof fn lemma_close_index(toks: Seq<Seq<u8>>, x: int, c: u8, opening: bool)
    requires
        0 <= x <= toks.len(),
    ensures
        x <= close_index(toks, x, c, opening) <= toks.len(),
        close_index(toks, x, c, opening) < toks.len() ==> closes_quote(
            toks[close_index(toks, x, c, opening)],
            c,
            opening && close_index(toks, x, c, opening) == x,
        ),
    decreases toks.len() - x,
{
    if x < toks.len() && !closes_quote(toks[x], c, opening) {
        lemma_close_index(toks, x + 1, c, false);
    }
}

/// Tokens `x..=y` joined with single spaces.
pub open spec fn join_range(toks: Seq<Seq<u8>>, x: int, y: int) -> Seq<u8>
    decreases y - x,
{
    if !(0 <= x <= y < toks.len()) {
        Seq::empty()
    } else if x == y {
        toks[x]
    } else {
        toks[x] + seq![32u8] + join_range(toks, x + 1, y)
    }
}

pub proof fn lemma_join_range_len(toks: Seq<Seq<u8>>, x: int, y: int)
    requires
        0 <= x <= y < toks.len(),
    ensures
        join_range(toks, x, y).len() >= toks[x].len() + (y - x),
    decreases y - x,
{
    if x < y {
        lemma_join_range_len(toks, x + 1, y);
    }
}

/// A quoted argument with its opening and closing quote removed.
pub open spec fn strip_quote_pair(s: Seq<u8>) -> Seq<u8> {
    s.subrange(1, s.len() - 1)
}

/// An unterminated quoted argument with only its opening quote removed.
pub open spec fn strip_quote_lead(s: Seq<u8>) -> Seq<u8> {
    s.subrange(1, s.len() as int)
}

/// Re-joins tokens that a naive whitespace split fragmented: a token that
/// begins with a quote character is merged, space-separated, with the
/// following tokens up to the one that ends with the matching quote, and the
/// pair of quotes is dropped. A group that never closes runs to the last
/// token and loses only its opening quote.
pub open spec fn merge_quoted(toks: Seq<Seq<u8>>, x: int) -> Seq<Seq<u8>>
    decreases toks.len() - x,
{
    if x < 0 || x >= toks.len() {
        Seq::empty()
    } else if toks[x].len() > 0 && is_quote(toks[x][0]) {
        let c = toks[x][0];
        let y = close_index(toks, x, c, true);
        if x <= y && y < toks.len() {
            seq![strip_quote_pair(join_range(toks, x, y))] + merge_quoted(toks, y + 1)
        } else {
            seq![strip_quote_lead(join_range(toks, x, toks.len() - 1))]
        }
    } else {
        seq![toks[x]] + merge_quoted(toks, x + 1)
    }
}

pub proof fn lemma_merge_quoted_nonempty(toks: Seq<Seq<u8>>, x: int)
    requires
        0 <= x < toks.len(),
    ensures
        merge_quoted(toks, x).len() >= 1,
{
}

fn find_close(toks: &Vec<Vec<u8>>, x: usize, c: u8) -> (r: usize)
    requires
        x < toks.len(),
    ensures
        r == close_index(toks.deep_view(), x as int, c, true),
{
    let ghost dv = toks.deep_view();
    let opener = &toks[x];
    if opener.len() >= 2 && opener[opener.len() - 1] == c {
        assert(closes_quote(dv[x as int], c, true));
        return x;
    }
    assert(!closes_quote(dv[x as int], c, true));
    let mut y: usize = x + 1;
    while y < toks.len()
        invariant
            x + 1 <= y <= toks.len(),
            close_index(dv, x as int, c, true) == close_index(dv, y as int, c, false),
            dv == toks.deep_view(),
        decreases toks.len() - y,
    {
        let t = &toks[y];
        if t.len() >= 1 && t[t.len() - 1] == c {
            assert(closes_quote(dv[y as int], c, false));
            return y;
        }
        assert(!closes_quote(dv[y as int], c, false));
        y = y + 1;
    }
    toks.len()
}

fn append_bytes(dst: &mut Vec<u8>, src: &Vec<u8>)
    ensures
        final(dst)@ == old(dst)@ + src@,
{
    let mut i: usize = 0;
    while i < src.len()
        invariant
            i <= src.len(),
            dst@ == old(dst)@ + src@.subrange(0, i as int),
        decreases src.len() - i,
    {
        dst.push(src[i]);
        proof {
            assert(dst@ =~= old(dst)@ + src@.subrange(0, i + 1 as int));
        }
        i = i + 1;
    }
    proof {
        assert(dst@ =~= old(dst)@ + src@);
    }
}

fn join_tokens(toks: &Vec<Vec<u8>>, x: usize, y: usize) -> (r: Vec<u8>)
    requires
        x <= y < toks.len(),
    ensures
        r@ == join_range(toks.deep_view(), x as int, y as int),
{
    let ghost dv = toks.deep_view();
    let mut out: Vec<u8> = Vec::new();
    let mut i: usize = x;
    while i < y
        invariant
            x <= i <= y < toks.len(),
            join_range(dv, x as int, y as int) == out@ + join_range(dv, i as int, y as int),
            dv == toks.deep_view(),
        decreases y - i,
    {
        append_bytes(&mut out, &toks[i]);
        out.push(32);
        proof {
            assert(out@ =~= (out@.subrange(0, out@.len() - 1 - dv[i as int].len() as int)
                + dv[i as int] + seq![32u8]));
        }
        i = i + 1;
    }
    append_bytes(&mut out, &toks[y]);
    out
}

/// Rebuilds the logical argument list from whitespace-split tokens,
/// re-joining quoted fragments (see `merge_quoted`).
pub fn parse_command_line(cmd: &Vec<Vec<u8>>) -> (r: Vec<Vec<u8>>)
    ensures
        r.deep_view() == merge_quoted(cmd.deep_view(), 0),
{
    let ghost dv = cmd.deep_view();
    let mut out: Vec<Vec<u8>> = Vec::new();
    let mut x: usize = 0;
    while x < cmd.len()
        invariant
            x <= cmd.len(),
            merge_quoted(dv, 0) == out.deep_view() + merge_quoted(dv, x as int),
            dv == cmd.deep_view(),
        decreases cmd.len() - x,
    {
        let ghost out0 = out.deep_view();
        let t = &cmd[x];
        if t.len() > 0 && (t[0] == 39 || t[0] == 34) {
            let c = t[0];
            let y = find_close(cmd, x, c);
            proof {
                lemma_close_index(dv, x as int, c, true);
            }
            if y < cmd.len() {
                let joined = join_tokens(cmd, x, y);
                proof {
                    if x == y {
                        assert(joined@.len() >= 2);
                    } else {
                        lemma_join_range_len(dv, x as int, y as int);
                    }
                }
                let merged = sub_vec(&joined, 1, joined.len() - 1);
                out.push(merged);
                proof {
                    assert(out.deep_view() =~~= out0 + seq![strip_quote_pair(
                        join_range(dv, x as int, y as int),
                    )]);
                }
                x = y + 1;
            } else {
                let joined = join_tokens(cmd, x, cmd.len() - 1);
                proof {
                    lemma_join_range_len(dv, x as int, cmd@.len() - 1);
                }
                let merged = sub_vec(&joined, 1, joined.len());
                out.push(merged);
                proof {
                    assert(out.deep_view() =~~= out0 + seq![strip_quote_lead(
                        join_range(dv, x as int, dv.len() - 1),
                    )]);
                }
                x = cmd.len();
            }
        } else {
            let copy = sub_vec(t, 0, t.len());
            out.push(copy);
            proof {
                assert(copy@ =~= dv[x as int]);
                assert(out.deep_view() =~~= out0 + seq![dv[x as int]]);
            }
            x = x + 1;
        }
    }
    out
}

/// First index at or after `from` that holds a space, or the length.
pub open spec fn find_space(s: Seq<u8>, from: int) -> int
    decreases s.len() - from,
{
    if from < 0 || from >= s.len() {
        s.len() as int
    } else if s[from] == 32 {
        from
    } else {
        find_space(s, from + 1)
    }
}

/// First index at or after `from` that holds a byte other than a space, or
/// the length.
pub open spec fn skip_spaces(s: Seq<u8>, from: int) -> int
    decreases s.len() - from,
{
    if from < 0 || from >= s.len() {
        s.len() as int
    } else if s[from] != 32 {
        from
    } else {
        skip_spaces(s, from + 1)
    }
}

/// The non-empty space-separated fields of a line, scanning from `from`.
pub open spec fn space_fields(s: Seq<u8>, from: int) -> Seq<Seq<u8>>
    decreases s.len() - from,
{
    let b = skip_spaces(s, from);
    if from < 0 || b < from || b >= s.len() {
        Seq::empty()
    } else {
        let e = find_space(s, b);
        if e <= from || e < b || e > s.len() {
            Seq::empty()
        } else {
            seq![s.subrange(b, e)] + space_fields(s, e)
        }
    }
}

fn scan_to_space(buf: &Vec<u8>, from: usize) -> (r: usize)
    requires
        from <= buf.len(),
    ensures
        r == find_space(buf@, from as int),
{
    let mut i: usize = from;
    while i < buf.len() && buf[i] != 32
        invariant
            from <= i <= buf.len(),
            find_space(buf@, from as int) == find_space(buf@, i as int),
        decreases buf.len() - i,
    {
        i = i + 1;
    }
    i
}

fn scan_past_spaces(buf: &Vec<u8>, from: usize) -> (r: usize)
    requires
        from <= buf.len(),
    ensures
        r == skip_spaces(buf@, from as int),
{
    let mut i: usize = from;
    while i < buf.len() && buf[i] == 32
        invariant
            from <= i <= buf.len(),
            skip_spaces(buf@, from as int) == skip_spaces(buf@, i as int),
        decreases buf.len() - i,
    {
        i = i + 1;
    }
    i
}

proof fn lemma_skip_spaces_at(s: Seq<u8>, from: int)
    requires
        0 <= from <= s.len(),
    ensures
        from <= skip_spaces(s, from) <= s.len(),
        skip_spaces(s, from) < s.len() ==> s[skip_spaces(s, from)] != 32,
    decreases s.len() - from,
{
    if from < s.len() && s[from] == 32 {
        lemma_skip_spaces_at(s, from + 1);
    }
}

proof fn lemma_find_space_at(s: Seq<u8>, from: int)
    requires
        0 <= from <= s.len(),
    ensures
        from <= find_space(s, from) <= s.len(),
    decreases s.len() - from,
{
    if from < s.len() && s[from] != 32 {
        lemma_find_space_at(s, from + 1);
    }
}

/// Splits a line into its non-empty space-separated fields.
pub fn split_space_fields(line: &Vec<u8>) -> (r: Vec<Vec<u8>>)
    ensures
        r.deep_view() == space_fields(line@, 0),
{
    let ghost s = line@;
    let mut out: Vec<Vec<u8>> = Vec::new();
    let mut pos: usize = 0;
    while pos < line.len()
        invariant
            pos <= line.len(),
            space_fields(s, 0) == out.deep_view() + space_fields(s, pos as int),
            s == line@,
        decreases line.len() - pos,
    {
        let ghost out0 = out.deep_view();
        let b = scan_past_spaces(line, pos);
        proof {
            lemma_skip_spaces_at(s, pos as int);
        }
        if b >= line.len() {
            proof {
                assert(space_fields(s, pos as int) =~~= Seq::<Seq<u8>>::empty());
                assert(out.deep_view() + space_fields(s, pos as int) =~~= out.deep_view());
            }
            pos = line.len();
        } else {
            let e = scan_to_space(line, b);
            proof {
                assert(s[b as int] != 32);
                assert(find_space(s, b as int) == find_space(s, b + 1 as int));
                lemma_find_space_at(s, b + 1);
            }
            let field = sub_vec(line, b, e);
            out.push(field);
            proof {
                assert(out.deep_view() =~~= out0 + seq![s.subrange(b as int, e as int)]);
            }
            pos = e;
        }
    }
    proof {
        assert(out.deep_view() + space_fields(s, pos as int) =~~= out.deep_view());
    }
    out
}

/// A line with every newline byte removed, as the textual lister's output is
/// cleaned before parsing.
pub open spec fn strip_newlines(s: Seq<u8>) -> Seq<u8>
    decreases s.len(),
{
    if s.len() == 0 {
        Seq::empty()
    } else if s.last() == 10 {
        strip_newlines(s.drop_last())
    } else {
        strip_newlines(s.drop_last()).push(s.last())
    }
}

pub fn remove_newlines(src: &Vec<u8>) -> (r: Vec<u8>)
    ensures
        r@ == strip_newlines(src@),
{
    let mut out: Vec<u8> = Vec::new();
    let mut i: usize = 0;
    while i < src.len()
        invariant
            i <= src.len(),
            out@ == strip_newlines(src@.subrange(0, i as int)),
        decreases src.len() - i,
    {
        let b = src[i];
        proof {
            assert(src@.subrange(0, i + 1 as int).drop_last() =~= src@.subrange(0, i as int));
            assert(src@.subrange(0, i + 1 as int).last() == src@[i as int]);
        }
        if b != 10 {
            out.push(b);
        }
        i = i + 1;
    }
    proof {
        assert(src@.subrange(0, src@.len() as int) =~= src@);
    }
    out
}

pub open spec fn all_digits(s: Seq<u8>) -> bool {
    forall|k: int| 0 <= k < s.len() ==> 48 <= #[trigger] s[k] <= 57
}

/// The value of a string of decimal digits.
pub open spec fn dec_value(s: Seq<u8>) -> int
    decreases s.len(),
{
    if s.len() == 0 {
        0
    } else {
        dec_value(s.drop_last()) * 10 + (s.last() - 48)
    }
}

proof fn lemma_dec_value_nonneg(s: Seq<u8>)
    requires
        all_digits(s),
    ensures
        dec_value(s) >= 0,
    decreases s.len(),
{
    if s.len() > 0 {
        assert(all_digits(s.drop_last()));
        lemma_dec_value_nonneg(s.drop_last());
    }
}

proof fn lemma_dec_value_prefix(s: Seq<u8>, i: int)
    requires
        all_digits(s),
        0 <= i <= s.len(),
    ensures
        dec_value(s.subrange(0, i)) <= dec_value(s),
    decreases s.len() - i,
{
    if i < s.len() {
        lemma_dec_value_prefix(s, i + 1);
        let p = s.subrange(0, i + 1);
        assert(p.drop_last() =~= s.subrange(0, i));
        assert(all_digits(s.subrange(0, i)));
        lemma_dec_value_nonneg(s.subrange(0, i));
    } else {
        assert(s.subrange(0, i) =~= s);
    }
}

/// Is `s` a well-formed decimal process id: at least one digit, digits only,
/// and a value that fits the id type?
pub open spec fn valid_pid_digits(s: Seq<u8>) -> bool {
    s.len() >= 1 && all_digits(s) && dec_value(s) <= i32::MAX
}

/// Parses a non-negative decimal integer, refusing empty input, any
/// non-digit byte, and values above `i32::MAX`.
pub fn parse_i32_digits(s: &Vec<u8>) -> (r: Option<i32>)
    ensures
        r matches Some(v) ==> valid_pid_digits(s@) && v == dec_value(s@),
        r is None ==> !valid_pid_digits(s@),
{
    if s.len() == 0 {
        return None;
    }
    let mut acc: u64 = 0;
    let mut i: usize = 0;
    while i < s.len()
        invariant
            i <= s.len(),
            s@.len() >= 1,
            acc == dec_value(s@.subrange(0, i as int)),
            acc <= i32::MAX,
            all_digits(s@.subrange(0, i as int)),
        decreases s.len() - i,
    {
        let b = s[i];
        proof {
            assert(s@.subrange(0, i + 1 as int).drop_last() =~= s@.subrange(0, i as int));
            assert(s@.subrange(0, i + 1 as int).last() == s@[i as int]);
        }
        if b < 48 || b > 57 {
            assert(!all_digits(s@)) by {
                assert(s@[i as int] == b);
            }
            return None;
        }
        acc = acc * 10 + ((b - 48) as u64);
        assert(all_digits(s@.subrange(0, i + 1 as int)));
        if acc > 2147483647 {
            proof {
                if all_digits(s@) {
                    lemma_dec_value_prefix(s@, i + 1);
                }
            }
            return None;
        }
        i = i + 1;
    }
    proof {
        assert(s@.subrange(0, s@.len() as int) =~= s@);
    }
    Some(acc as i32)
}

/// A fallback process record: the parent process id and the merged command
/// line drawn from one line of the textual lister.
pub struct PsInfo {
    pub ppid: i32,
    pub command: Vec<Vec<u8>>,
}

/// The merged command tokens a well-formed lister line yields: every field
/// after the parent id, quote-merged, with newlines removed from the last
/// argument.
pub open spec fn spec_ps_command(line: Seq<u8>) -> Seq<Seq<u8>> {
    let fields = space_fields(line, 0);
    let merged = merge_quoted(fields.subrange(1, fields.len() as int), 0);
    merged.update(merged.len() - 1, strip_newlines(merged.last()))
}

/// Is `line` a parseable lister line: at least two fields, the first a
/// decimal parent id once newlines are removed?
pub open spec fn ps_line_ok(line: Seq<u8>) -> bool {
    let fields = space_fields(line, 0);
    fields.len() >= 2 && valid_pid_digits(strip_newlines(fields[0]))
}

/// Parses one `parentPid command arg...` line of the external textual
/// process lister.
pub fn parse_ps_line(line: &Vec<u8>) -> (r: Option<PsInfo>)
    ensures
        r matches Some(pi) ==> ps_line_ok(line@) && pi.ppid == dec_value(
            strip_newlines(space_fields(line@, 0)[0]),
        ) && pi.command.deep_view() == spec_ps_command(line@) && pi.command.len() >= 1,
        r is None ==> !ps_line_ok(line@),
{
    let fields = split_space_fields(line);
    if fields.len() < 2 {
        return None;
    }
    let ppid_digits = remove_newlines(&fields[0]);
    proof {
        assert(fields.deep_view()[0] == fields@[0]@);
    }
    let ppid = match parse_i32_digits(&ppid_digits) {
        Some(v) => v,
        None => {
            return None;
        },
    };
    let mut rest: Vec<Vec<u8>> = Vec::new();
    let mut i: usize = 1;
    while i < fields.len()
        invariant
            1 <= i <= fields.len(),
            rest.deep_view() == fields.deep_view().subrange(1, i as int),
        decreases fields.len() - i,
    {
        let ghost r0 = rest.deep_view();
        let ghost rv0 = rest@;
        let ghost fdv = fields.deep_view();
        let copy = sub_vec(&fields[i], 0, fields[i].len());
        rest.push(copy);
        proof {
            assert(copy@ =~= fdv[i as int]);
            assert(copy.deep_view() =~= copy@);
            assert forall|k: int| 0 <= k < r0.len() implies rest.deep_view()[k] == r0[k] by {
                assert(rest@[k] == rv0[k]);
            }
            assert(rest.deep_view()[r0.len() as int] == copy.deep_view());
            assert(rest.deep_view() =~~= fdv.subrange(1, i + 1 as int));
        }
        i = i + 1;
    }
    let mut command = parse_command_line(&rest);
    proof {
        assert(rest.deep_view() =~~= fields.deep_view().subrange(
            1,
            fields.deep_view().len() as int,
        ));
        lemma_merge_quoted_nonempty(rest.deep_view(), 0);
    }
    let ghost merged = command.deep_view();
    let last = command.len() - 1;
    let stripped = remove_newlines(&command[last]);
    proof {
        assert(command@[last as int]@ =~= merged[last as int]);
        assert(merged[last as int] == merged.last());
    }
    command.set(last, stripped);
    proof {
        assert forall|k: int| 0 <= k < merged.len() - 1 implies command.deep_view()[k]
            == merged[k] by {}
        assert(command.deep_view()[last as int] =~= strip_newlines(merged.last()));
        assert(command.deep_view() =~~= merged.update(
            merged.len() - 1,
            strip_newlines(merged.last()),
        ));
        assert(command.deep_view() =~~= spec_ps_command(line@));
    }
    Some(PsInfo { ppid, command })
}

} // verus!
