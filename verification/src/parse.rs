//! Parsing the two encoded strings of an entry: the tag pair and the
//! parameter block.

use vstd::prelude::*;
use crate::numeral::{spec_parse_i64, spec_parse_usize, parse_i64, parse_usize};
use crate::text::{
    chars_of, find_char, first_index_of, spec_lines, split_lines, lemma_spec_lines_nonempty,
};

verus! {

/// What parsing a tag string yields. A tag string holds two signed
/// base-10 integers joined by a hyphen. A hyphen at the start of either
/// token is its sign, not a separator, so negative tags parse; each token
/// runs to the next hyphen after that, and anything past the second token
/// is ignored. `None` when there is no separating hyphen or a token is
/// not a well-formed integer in range.
pub open spec fn spec_parse_tags(s: Seq<char>) -> Option<(i64, i64)> {
    let sign1: int = if s.len() > 0 && (s[0] == '-' || s[0] == '+') {
        1
    } else {
        0
    };
    let d1 = first_index_of(s.skip(sign1), '-');
    if d1 == -1 {
        None
    } else {
        let left = s.take(sign1 + d1);
        let rest = s.skip(sign1 + d1 + 1);
        let sign2: int = if rest.len() > 0 && (rest[0] == '-' || rest[0] == '+') {
            1
        } else {
            0
        };
        let d2 = first_index_of(rest.skip(sign2), '-');
        let right = if d2 == -1 {
            rest
        } else {
            rest.take(sign2 + d2)
        };
        match (spec_parse_i64(left), spec_parse_i64(right)) {
            (Some(l), Some(r)) => Some((l, r)),
            _ => None,
        }
    }
}

/// The two tags of `s`, exactly as `spec_parse_tags` states.
pub fn parse_tags(v: &Vec<char>) -> (r: Option<(i64, i64)>)
    ensures
        r == spec_parse_tags(v@),
{
    let n = v.len();
    let sign1: usize = if n > 0 && (v[0] == '-' || v[0] == '+') {
        1
    } else {
        0
    };
    let d1 = find_char(v, sign1, n, '-');
    proof {
        assert(v@.subrange(sign1 as int, n as int) =~= v@.skip(sign1 as int));
    }
    if d1 == n {
        return None;
    }
    let left = parse_i64(v, 0, d1);
    proof {
        assert(v@.subrange(0, d1 as int) =~= v@.take(sign1 + (d1 - sign1)));
    }
    let from: usize = d1 + 1;
    let ghost rest = v@.skip(from as int);
    let sign2: usize = if from < n && (v[from] == '-' || v[from] == '+') {
        1
    } else {
        0
    };
    proof {
        assert(rest.len() == n - from);
        if rest.len() > 0 {
            assert(rest[0] == v@[from as int]);
        }
    }
    let d2 = find_char(v, from + sign2, n, '-');
    proof {
        assert(v@.subrange(from + sign2, n as int) =~= rest.skip(sign2 as int));
    }
    let end2: usize = if d2 == n {
        n
    } else {
        d2
    };
    let right = parse_i64(v, from, end2);
    proof {
        if d2 == n {
            assert(v@.subrange(from as int, n as int) =~= rest);
        } else {
            assert(v@.subrange(from as int, d2 as int) =~= rest.take(sign2 + (d2 - from - sign2)));
        }
    }
    match (left, right) {
        (Some(l), Some(r)) => Some((l, r)),
        _ => None,
    }
}

/// What parsing a parameter block yields. The block's first line is a
/// non-negative count `n`; the parameters are the next `n` lines, or all
/// remaining lines when fewer than `n` follow. `None` when the first line
/// is not a count.
pub open spec fn spec_params(block: Seq<char>) -> Option<Seq<Seq<char>>> {
    let ls = spec_lines(block);
    match spec_parse_usize(ls[0]) {
        None => None,
        Some(n) => {
            let rest = ls.drop_first();
            if n <= rest.len() {
                Some(rest.take(n as int))
            } else {
                Some(rest)
            }
        },
    }
}

/// The parameters of `block`, exactly as `spec_params` states.
pub fn parse_params(block: &str) -> (r: Option<Vec<String>>)
    ensures
        match r {
            Some(ps) => spec_params(block@) == Some(ps.deep_view()),
            None => spec_params(block@) is None,
        },
{
    let chars = chars_of(block);
    let lines = split_lines(&chars);
    proof {
        lemma_spec_lines_nonempty(block@);
        assert(lines.deep_view().len() == lines@.len());
        assert(lines.deep_view()[0] == lines@[0]@);
    }
    let first = chars_of(lines[0].as_str());
    match parse_usize(&first, 0, first.len()) {
        None => {
            proof {
                assert(first@.subrange(0, first@.len() as int) =~= first@);
            }
            None
        },
        Some(n) => {
            proof {
                assert(first@.subrange(0, first@.len() as int) =~= first@);
            }
            let ghost rest = spec_lines(block@).drop_first();
            let avail = lines.len() - 1;
            let count = if n <= avail {
                n
            } else {
                avail
            };
            let mut ps: Vec<String> = Vec::new();
            let mut i: usize = 0;
            proof {
                assert(ps.deep_view() =~= rest.take(0));
            }
            while i < count
                invariant
                    i <= count,
                    count < lines@.len(),
                    rest == spec_lines(block@).drop_first(),
                    lines.deep_view() == spec_lines(block@),
                    ps.deep_view() == rest.take(i as int),
                decreases count - i,
            {
                let line = lines[i + 1].clone();
                let ghost old_ps = ps.deep_view();
                ps.push(line);
                proof {
                    assert(ps.deep_view() =~= old_ps.push(line@));
                    assert(line@ == lines.deep_view()[i + 1]);
                    assert(rest[i as int] == lines.deep_view()[i + 1]);
                    assert(rest.take(i + 1) =~= rest.take(i as int).push(rest[i as int]));
                }
                i = i + 1;
            }
            proof {
                if n > avail {
                    assert(rest.take(count as int) =~= rest);
                }
            }
            Some(ps)
        },
    }
}

} // verus!
