//! Text helpers: character vectors, line splitting, and joining.

use vstd::prelude::*;
use vstd::string::StrSliceExecFns;
use vstd::string::StringExecFns;

verus! {

/// Relies on String::push: it appends exactly the one character.
#[verifier::external_body]
fn push_char(s: &mut String, c: char)
    ensures
        final(s)@ == old(s)@.push(c),
{
    s.push(c);
}

/// The characters of `s`, as a vector.
pub fn chars_of(s: &str) -> (r: Vec<char>)
    ensures
        r@ == s@,
{
    let n = s.unicode_len();
    let mut r: Vec<char> = Vec::new();
    let mut i: usize = 0;
    while i < n
        invariant
            i <= n,
            n == s@.len(),
            r@ == s@.take(i as int),
        decreases n - i,
    {
        let c = s.get_char(i);
        r.push(c);
        proof {
            assert(s@.take(i + 1) =~= s@.take(i as int).push(s@[i as int]));
        }
        i = i + 1;
    }
    proof {
        assert(s@.take(n as int) =~= s@);
    }
    r
}

/// The characters of `v` in `from..to`, as a string.
pub fn chars_to_string(v: &Vec<char>, from: usize, to: usize) -> (r: String)
    requires
        from <= to <= v@.len(),
    ensures
        r@ == v@.subrange(from as int, to as int),
{
    let ghost d = v@.subrange(from as int, to as int);
    let mut r = String::new();
    let mut i: usize = from;
    assert(d.take(0) =~= Seq::<char>::empty());
    while i < to
        invariant
            from <= i <= to <= v@.len(),
            d == v@.subrange(from as int, to as int),
            r@ == d.take(i - from),
        decreases to - i,
    {
        let c = v[i];
        push_char(&mut r, c);
        proof {
            assert(d.take(i - from + 1) =~= d.take(i - from).push(d[i - from]));
        }
        i = i + 1;
    }
    proof {
        assert(d.take(to - from) =~= d);
    }
    r
}

/// Appends the characters of `v` to `s`.
pub fn append_chars(s: &mut String, v: &Vec<char>)
    ensures
        final(s)@ == old(s)@ + v@,
{
    let mut i: usize = 0;
    while i < v.len()
        invariant
            i <= v@.len(),
            s@ == old(s)@ + v@.take(i as int),
        decreases v@.len() - i,
    {
        let c = v[i];
        push_char(s, c);
        proof {
            assert(old(s)@ + v@.take(i + 1) =~= (old(s)@ + v@.take(i as int)).push(v@[i as int]));
        }
        i = i + 1;
    }
    proof {
        assert(old(s)@ + v@.take(v@.len() as int) =~= old(s)@ + v@);
    }
}

/// The parts joined by `sep`: nothing for no parts, otherwise the parts in
/// order with one separator between neighbours.
pub open spec fn spec_join(parts: Seq<Seq<char>>, sep: char) -> Seq<char>
    decreases parts.len(),
{
    if parts.len() == 0 {
        Seq::empty()
    } else if parts.len() == 1 {
        parts[0]
    } else {
        spec_join(parts.drop_last(), sep) + seq![sep] + parts.last()
    }
}

/// The strings of `parts` joined by `sep`, exactly as `spec_join` states.
pub fn join(parts: &Vec<String>, sep: char) -> (r: String)
    ensures
        r@ == spec_join(parts.deep_view(), sep),
{
    let mut r = String::new();
    let mut i: usize = 0;
    assert(parts.deep_view().take(0) =~= Seq::<Seq<char>>::empty());
    while i < parts.len()
        invariant
            i <= parts@.len(),
            parts.deep_view().len() == parts@.len(),
            r@ == spec_join(parts.deep_view().take(i as int), sep),
        decreases parts@.len() - i,
    {
        if i > 0 {
            push_char(&mut r, sep);
        }
        let part = &parts[i];
        r.append(part.as_str());
        proof {
            let dv = parts.deep_view();
            assert(dv[i as int] == parts@[i as int]@);
            let p = dv.take(i + 1);
            assert(p.drop_last() =~= dv.take(i as int));
            assert(p.last() == dv[i as int]);
            if i == 0 {
                assert(spec_join(p, sep) == dv[0]);
            }
        }
        i = i + 1;
    }
    proof {
        assert(parts.deep_view().take(parts@.len() as int) =~= parts.deep_view());
    }
    r
}

/// The first position of `c` in `s`, or -1 when `s` does not hold it.
pub open spec fn first_index_of(s: Seq<char>, c: char) -> int
    decreases s.len(),
{
    if s.len() == 0 {
        -1
    } else if s[0] == c {
        0
    } else {
        let rest = first_index_of(s.drop_first(), c);
        if rest == -1 {
            -1
        } else {
            rest + 1
        }
    }
}

/// A position of `c` with none before it is what `first_index_of` finds.
pub proof fn lemma_first_index_of_exact(s: Seq<char>, c: char, i: int)
    requires
        0 <= i < s.len(),
        s[i] == c,
        forall|k: int| 0 <= k < i ==> s[k] != c,
    ensures
        first_index_of(s, c) == i,
    decreases s.len(),
{
    if i > 0 {
        assert forall|k: int| 0 <= k < i - 1 implies s.drop_first()[k] != c by {
            assert(s.drop_first()[k] == s[k + 1]);
        }
        assert(s.drop_first()[i - 1] == s[i]);
        lemma_first_index_of_exact(s.drop_first(), c, i - 1);
    }
}

/// No position of `s` holds `c`: `first_index_of` finds nothing.
pub proof fn lemma_first_index_of_none(s: Seq<char>, c: char)
    requires
        forall|k: int| 0 <= k < s.len() ==> s[k] != c,
    ensures
        first_index_of(s, c) == -1,
    decreases s.len(),
{
    if s.len() > 0 {
        assert forall|k: int| 0 <= k < s.drop_first().len() implies s.drop_first()[k] != c by {
            assert(s.drop_first()[k] == s[k + 1]);
        }
        lemma_first_index_of_none(s.drop_first(), c);
    }
}

/// The lines of `s`: the pieces between newline characters, in order.
/// A string without a newline is one line, so there is always at least one.
pub open spec fn spec_lines(s: Seq<char>) -> Seq<Seq<char>>
    decreases s.len(),
{
    let i = first_index_of(s, '\n');
    if i == -1 {
        seq![s]
    } else if 0 <= i < s.len() {
        seq![s.take(i)] + spec_lines(s.skip(i + 1))
    } else {
        seq![s]
    }
}

/// There is always at least one line.
pub proof fn lemma_spec_lines_nonempty(s: Seq<char>)
    ensures
        spec_lines(s).len() >= 1,
{
}

/// The position of the first `c` in `v` at or after `from`, or `to` when
/// there is none before `to`.
pub fn find_char(v: &Vec<char>, from: usize, to: usize, c: char) -> (r: usize)
    requires
        from <= to <= v@.len(),
    ensures
        from <= r <= to,
        r < to ==> first_index_of(v@.subrange(from as int, to as int), c) == r - from,
        r == to ==> first_index_of(v@.subrange(from as int, to as int), c) == -1,
{
    let ghost d = v@.subrange(from as int, to as int);
    let mut i: usize = from;
    while i < to
        invariant
            from <= i <= to <= v@.len(),
            d == v@.subrange(from as int, to as int),
            forall|k: int| 0 <= k < i - from ==> d[k] != c,
        decreases to - i,
    {
        let cur = v[i];
        if cur == c {
            proof {
                assert(d[i - from] == v@[i as int]);
                lemma_first_index_of_exact(d, c, i - from);
            }
            return i;
        }
        proof {
            assert(d[i - from] == v@[i as int]);
        }
        i = i + 1;
    }
    proof {
        lemma_first_index_of_none(d, c);
    }
    to
}

/// The lines of `v`, as strings, exactly as `spec_lines` states.
pub fn split_lines(v: &Vec<char>) -> (r: Vec<String>)
    ensures
        r.deep_view() == spec_lines(v@),
{
    let n = v.len();
    let mut r: Vec<String> = Vec::new();
    let mut pos: usize = 0;
    proof {
        assert(v@.skip(0) =~= v@);
        assert(r.deep_view() + spec_lines(v@) =~= spec_lines(v@));
    }
    loop
        invariant
            pos <= n,
            n == v@.len(),
            spec_lines(v@) == r.deep_view() + spec_lines(v@.skip(pos as int)),
        decreases n - pos,
    {
        let nl = find_char(v, pos, n, '\n');
        let ghost rest = v@.skip(pos as int);
        let line = chars_to_string(v, pos, nl);
        let ghost old_r = r.deep_view();
        r.push(line);
        proof {
            assert(r.deep_view() =~= old_r.push(line@));
        }
        if nl == n {
            proof {
                assert(rest =~= v@.subrange(pos as int, n as int));
                assert(first_index_of(rest, '\n') == -1);
                assert(spec_lines(rest) =~= seq![rest]);
                assert(line@ =~= rest);
                assert(r.deep_view() =~= old_r + spec_lines(rest));
            }
            return r;
        }
        proof {
            assert(rest =~= v@.subrange(pos as int, n as int));
            let i = nl - pos;
            assert(first_index_of(rest, '\n') == i);
            assert(spec_lines(rest) =~= seq![rest.take(i)] + spec_lines(rest.skip(i + 1)));
            assert(line@ =~= rest.take(i));
            assert(rest.skip(i + 1) =~= v@.skip(nl + 1));
            assert(r.deep_view() + spec_lines(v@.skip(nl + 1)) =~= old_r + spec_lines(rest));
        }
        pos = nl + 1;
    }
}

} // verus!
