//! Comment stripping for extracted parameter files: the content is cut into
//! lines, every line whose first byte is `#` is dropped, and each kept line
//! is written back followed by exactly one line feed — which also
//! normalizes line endings and the presence of a final newline.

use vstd::prelude::*;

verus! {

/// Index of the first line feed in `s`, or `s.len()` when there is none.
pub open spec fn newline_pos(s: Seq<u8>) -> int
    decreases s.len(),
{
    if s.len() == 0 {
        0
    } else if s[0] == 10u8 {
        0
    } else {
        1 + newline_pos(s.drop_first())
    }
}

pub proof fn lemma_newline_pos(s: Seq<u8>)
    ensures
        0 <= newline_pos(s) <= s.len(),
        newline_pos(s) < s.len() ==> s[newline_pos(s)] == 10u8,
        forall|k: int| 0 <= k < newline_pos(s) ==> s[k] != 10u8,
    decreases s.len(),
{
    if s.len() == 0 {
    } else if s[0] == 10u8 {
    } else {
        lemma_newline_pos(s.drop_first());
        assert forall|k: int| 0 <= k < newline_pos(s) implies s[k] != 10u8 by {
            if k > 0 {
                assert(s.drop_first()[k - 1] == s[k]);
                assert(s.drop_first()[k - 1] != 10u8);
            }
        }
        if newline_pos(s) < s.len() {
            assert(s[newline_pos(s)] == s.drop_first()[newline_pos(s.drop_first())]);
        }
    }
}

proof fn lemma_newline_pos_unique(s: Seq<u8>, m: int)
    requires
        0 <= m <= s.len(),
        forall|k: int| 0 <= k < m ==> s[k] != 10u8,
        m < s.len() ==> s[m] == 10u8,
    ensures
        newline_pos(s) == m,
    decreases s.len(),
{
    if s.len() == 0 {
    } else if s[0] == 10u8 {
        if m > 0 {
            assert(s[0] != 10u8);
        }
    } else {
        assert(m > 0) by {
            if m == 0 {
                assert(s[0] == 10u8);
            }
        }
        let rest = s.drop_first();
        assert forall|k: int| 0 <= k < m - 1 implies rest[k] != 10u8 by {
            assert(rest[k] == s[k + 1]);
        }
        if m - 1 < rest.len() {
            assert(rest[m - 1] == s[m]);
        }
        lemma_newline_pos_unique(rest, m - 1);
    }
}

/// The line without a carriage return left at its end by a CRLF terminator.
pub open spec fn trim_cr(line: Seq<u8>) -> Seq<u8> {
    if line.len() > 0 && line.last() == 13u8 {
        line.drop_last()
    } else {
        line
    }
}

/// A dropped line: its first byte is `#`.
pub open spec fn is_comment(line: Seq<u8>) -> bool {
    line.len() > 0 && line[0] == 35u8
}

/// The stripped image of `s`: lines are cut at each line feed, a carriage
/// return belonging to a CRLF terminator is dropped with it, comment lines
/// vanish, and every kept line gains exactly one trailing line feed.
pub open spec fn spec_strip(s: Seq<u8>) -> Seq<u8>
    decreases s.len(),
    via spec_strip_decreases
{
    if s.len() == 0 {
        Seq::empty()
    } else {
        let n = newline_pos(s);
        let raw = s.subrange(0, n);
        let line = if n < s.len() {
            trim_cr(raw)
        } else {
            raw
        };
        let rest = if n == s.len() {
            Seq::<u8>::empty()
        } else {
            spec_strip(s.subrange(n + 1, s.len() as int))
        };
        let kept: Seq<u8> = if is_comment(line) {
            Seq::empty()
        } else {
            line.push(10u8)
        };
        kept + rest
    }
}

#[via_fn]
proof fn spec_strip_decreases(s: Seq<u8>) {
    if s.len() > 0 {
        lemma_newline_pos(s);
    }
}

/// Drops every comment line of a parameters file and terminates each kept
/// line with exactly one line feed. Feeding the result back in returns it
/// unchanged, since no comment line survives the first pass.
pub fn strip_prop_comments(data: &Vec<u8>) -> (r: Vec<u8>)
    ensures
        r@ == spec_strip(data@),
{
    let n = data.len();
    let mut out: Vec<u8> = Vec::new();
    let mut i: usize = 0;
    proof {
        assert(data@.skip(0) =~= data@);
        assert(out@ + spec_strip(data@.skip(0)) =~= spec_strip(data@));
    }
    while i < n
        invariant
            i <= n,
            n == data@.len(),
            spec_strip(data@) == out@ + spec_strip(data@.skip(i as int)),
        decreases n - i,
    {
        let mut j: usize = i;
        while j < n && data[j] != 10u8
            invariant
                i <= j <= n,
                n == data@.len(),
                forall|k: int| i <= k < j ==> data@[k] != 10u8,
            decreases n - j,
        {
            j += 1;
        }
        let ghost suffix = data@.skip(i as int);
        proof {
            assert forall|k: int| 0 <= k < j - i implies suffix[k] != 10u8 by {
                assert(suffix[k] == data@[i + k]);
            }
            if j < n {
                assert(suffix[j - i] == data@[j as int]);
            }
            lemma_newline_pos_unique(suffix, j - i);
        }
        let terminated = j < n;
        let line_end = if terminated && j > i && data[j - 1] == 13u8 {
            j - 1
        } else {
            j
        };
        let comment_line = line_end > i && data[i] == 35u8;
        let ghost pre_out = out@;
        let ghost npos = j - i;
        let ghost raw = suffix.subrange(0, npos as int);
        let ghost line = if npos < suffix.len() {
            trim_cr(raw)
        } else {
            raw
        };
        proof {
            assert(raw =~= data@.subrange(i as int, j as int));
            if terminated && j > i && data@[j - 1] == 13u8 {
                assert(raw.len() > 0 && raw.last() == 13u8);
                assert(trim_cr(raw) =~= data@.subrange(i as int, line_end as int));
            } else {
                assert(line =~= data@.subrange(i as int, line_end as int));
            }
            assert(line == data@.subrange(i as int, line_end as int));
            if line.len() > 0 {
                assert(line[0] == data@[i as int]);
            }
            assert(is_comment(line) == comment_line);
        }
        if !comment_line {
            let mut t = i;
            while t < line_end
                invariant
                    i <= t <= line_end,
                    line_end <= n,
                    n == data@.len(),
                    out@ == pre_out + data@.subrange(i as int, t as int),
                decreases line_end - t,
            {
                let b = data[t];
                out.push(b);
                proof {
                    assert(out@ =~= pre_out + data@.subrange(i as int, t as int + 1));
                }
                t += 1;
            }
            out.push(10u8);
            proof {
                assert(out@ =~= pre_out + line.push(10u8));
            }
        }
        let next_i = if terminated {
            j + 1
        } else {
            n
        };
        proof {
            let next_suffix = data@.skip(next_i as int);
            if terminated {
                assert(suffix.subrange(npos + 1, suffix.len() as int) =~= next_suffix);
            } else {
                assert(next_suffix =~= Seq::<u8>::empty());
            }
            let kept: Seq<u8> = if is_comment(line) {
                Seq::empty()
            } else {
                line.push(10u8)
            };
            assert(spec_strip(suffix) == kept + spec_strip(next_suffix));
            assert(out@ == pre_out + kept);
            assert(out@ + spec_strip(next_suffix) =~= pre_out + spec_strip(suffix));
        }
        i = next_i;
    }
    proof {
        assert(data@.skip(n as int) =~= Seq::<u8>::empty());
        assert(out@ + spec_strip(data@.skip(n as int)) =~= out@);
    }
    out
}

} // verus!
