//! Character-level text operations: white space, trimming, line splitting
//! and joining, stated over sequences of characters.

use vstd::prelude::*;

verus! {

/// The Unicode `White_Space` property, which `char::is_whitespace` tests.
pub open spec fn is_white_space(c: char) -> bool {
    let u = c as u32;
    ||| 0x09 <= u <= 0x0D
    ||| u == 0x20
    ||| u == 0x85
    ||| u == 0xA0
    ||| u == 0x1680
    ||| 0x2000 <= u <= 0x200A
    ||| u == 0x2028
    ||| u == 0x2029
    ||| u == 0x202F
    ||| u == 0x205F
    ||| u == 0x3000
}

/// `s` with its leading white space removed (`str::trim_start`).
pub open spec fn trim_start_spec(s: Seq<char>) -> Seq<char>
    decreases s.len(),
{
    if s.len() > 0 && is_white_space(s[0]) {
        trim_start_spec(s.drop_first())
    } else {
        s
    }
}

/// `s` with its trailing white space removed (`str::trim_end`).
pub open spec fn trim_end_spec(s: Seq<char>) -> Seq<char>
    decreases s.len(),
{
    if s.len() > 0 && is_white_space(s.last()) {
        trim_end_spec(s.drop_last())
    } else {
        s
    }
}

/// `s` with leading and trailing white space removed (`str::trim`).
pub open spec fn trim_spec(s: Seq<char>) -> Seq<char> {
    trim_end_spec(trim_start_spec(s))
}

/// The pieces of `s` between line feeds, in order; there is always at
/// least one piece, and a line feed at the end leaves an empty last piece.
pub open spec fn split_lf(s: Seq<char>) -> Seq<Seq<char>>
    decreases s.len(),
{
    if s.len() == 0 {
        seq![Seq::<char>::empty()]
    } else {
        let p = split_lf(s.drop_last());
        if s.last() == '\n' {
            p.push(Seq::<char>::empty())
        } else {
            p.update(p.len() - 1, p.last().push(s.last()))
        }
    }
}

/// A line that ended at a line feed loses one carriage return before it.
pub open spec fn strip_cr(l: Seq<char>) -> Seq<char> {
    if l.len() > 0 && l.last() == '\r' {
        l.drop_last()
    } else {
        l
    }
}

/// The lines of `s`, as `str::lines` gives them: split at `\n` or `\r\n`,
/// terminators removed, and no empty line after a final terminator.
pub open spec fn lines_spec(s: Seq<char>) -> Seq<Seq<char>> {
    let p = split_lf(s);
    let done = p.drop_last().map_values(|l: Seq<char>| strip_cr(l));
    if p.last().len() == 0 {
        done
    } else {
        done.push(p.last())
    }
}

/// The parts joined with `sep` between each two neighbours (`[_]::join`).
pub open spec fn join_spec(parts: Seq<Seq<char>>, sep: Seq<char>) -> Seq<char>
    decreases parts.len(),
{
    if parts.len() == 0 {
        Seq::<char>::empty()
    } else if parts.len() == 1 {
        parts[0]
    } else {
        join_spec(parts.drop_last(), sep) + sep + parts.last()
    }
}

/// `s` begins with `p`.
pub open spec fn starts_with(s: Seq<char>, p: Seq<char>) -> bool {
    p.len() <= s.len() && s.subrange(0, p.len() as int) == p
}

proof fn lemma_split_lf_nonempty(s: Seq<char>)
    ensures
        split_lf(s).len() >= 1,
    decreases s.len(),
{
    if s.len() > 0 {
        lemma_split_lf_nonempty(s.drop_last());
    }
}

/// Tests the Unicode `White_Space` property of `c`.
pub fn is_whitespace_char(c: char) -> (b: bool)
    ensures
        b == is_white_space(c),
{
    let u = c as u32;
    (0x09 <= u && u <= 0x0D) || u == 0x20 || u == 0x85 || u == 0xA0 || u == 0x1680 || (0x2000
        <= u && u <= 0x200A) || u == 0x2028 || u == 0x2029 || u == 0x202F || u == 0x205F || u
        == 0x3000
}

/// The first index at or after `lo` of `s[lo..hi]` trimmed at the start.
pub fn trim_start_index(s: &Vec<char>, lo: usize, hi: usize) -> (i: usize)
    requires
        lo <= hi <= s@.len(),
    ensures
        lo <= i <= hi,
        s@.subrange(i as int, hi as int) == trim_start_spec(s@.subrange(lo as int, hi as int)),
{
    let mut i = lo;
    while i < hi && is_whitespace_char(s[i])
        invariant
            lo <= i <= hi <= s@.len(),
            trim_start_spec(s@.subrange(lo as int, hi as int)) == trim_start_spec(
                s@.subrange(i as int, hi as int),
            ),
        decreases hi - i,
    {
        assert(s@.subrange(i as int, hi as int).drop_first() =~= s@.subrange(
            i + 1,
            hi as int,
        ));
        i = i + 1;
    }
    i
}

/// The end index of `s[lo..hi]` trimmed at the end.
pub fn trim_end_index(s: &Vec<char>, lo: usize, hi: usize) -> (j: usize)
    requires
        lo <= hi <= s@.len(),
    ensures
        lo <= j <= hi,
        s@.subrange(lo as int, j as int) == trim_end_spec(s@.subrange(lo as int, hi as int)),
{
    let mut j = hi;
    while j > lo && is_whitespace_char(s[j - 1])
        invariant
            lo <= j <= hi <= s@.len(),
            trim_end_spec(s@.subrange(lo as int, hi as int)) == trim_end_spec(
                s@.subrange(lo as int, j as int),
            ),
        decreases j - lo,
    {
        assert(s@.subrange(lo as int, j as int).drop_last() =~= s@.subrange(
            lo as int,
            j - 1,
        ));
        j = j - 1;
    }
    j
}

/// The characters of `s`, in order.
pub fn chars_of(s: &str) -> (v: Vec<char>)
    ensures
        v@ == s@,
{
    let mut v: Vec<char> = Vec::new();
    for c in it: s.chars()
        invariant
            v@ == it.seq().take(it.index() as int),
            it.seq() == s@,
    {
        v.push(c);
    }
    v
}

/// The character sequences held by a vector of character vectors.
pub open spec fn char_views(v: Seq<Vec<char>>) -> Seq<Seq<char>> {
    v.map_values(|x: Vec<char>| x@)
}

/// Appends `c` to `s` (`String::push`).
#[verifier::external_body]
pub fn push_char(s: &mut String, c: char)
    ensures
        final(s)@ == old(s)@.push(c),
{
    s.push(c)
}

/// The string made of the characters `v[lo..hi]`.
pub fn string_of_chars(v: &Vec<char>, lo: usize, hi: usize) -> (s: String)
    requires
        lo <= hi <= v@.len(),
    ensures
        s@ == v@.subrange(lo as int, hi as int),
{
    let mut s = String::new();
    let mut i = lo;
    while i < hi
        invariant
            lo <= i <= hi <= v@.len(),
            s@ == v@.subrange(lo as int, i as int),
        decreases hi - i,
    {
        push_char(&mut s, v[i]);
        assert(v@.subrange(lo as int, i + 1) =~= v@.subrange(lo as int, i as int).push(v@[i as int]));
        i = i + 1;
    }
    s
}

/// The lines of `s[lo..hi]` (`str::lines`).
pub fn split_lines(s: &Vec<char>, lo: usize, hi: usize) -> (lines: Vec<Vec<char>>)
    requires
        lo <= hi <= s@.len(),
    ensures
        char_views(lines@) == lines_spec(s@.subrange(lo as int, hi as int)),
{
    let mut lines: Vec<Vec<char>> = Vec::new();
    let mut cur: Vec<char> = Vec::new();
    let ghost mut raw: Seq<Seq<char>> = Seq::empty();
    let mut i = lo;
    assert(s@.subrange(lo as int, lo as int) =~= Seq::<char>::empty());
    assert(raw.push(cur@) =~= seq![Seq::<char>::empty()]);
    while i < hi
        invariant
            lo <= i <= hi <= s@.len(),
            split_lf(s@.subrange(lo as int, i as int)) == raw.push(cur@),
            char_views(lines@) == raw.map_values(|l: Seq<char>| strip_cr(l)),
        decreases hi - i,
    {
        let c = s[i];
        let ghost before = s@.subrange(lo as int, i as int);
        assert(s@.subrange(lo as int, i + 1).drop_last() =~= before);
        if c == '\n' {
            let ghost line_raw = cur@;
            let mut line = cur;
            let n = line.len();
            if n > 0 && line[n - 1] == '\r' {
                line.pop();
                assert(line@ =~= strip_cr(line_raw));
            }
            assert(line@ == strip_cr(line_raw));
            let ghost line_v = line@;
            let ghost old_lines = lines@;
            let ghost old_raw = raw;
            proof {
                raw = raw.push(line_raw);
            }
            lines.push(line);
            cur = Vec::new();
            assert(lines@.len() == old_lines.len() + 1);
            assert(lines@[lines@.len() - 1]@ == line_v);
            assert(char_views(old_lines).len() == old_raw.len());
            assert forall|k: int| 0 <= k < raw.len() implies #[trigger] char_views(lines@)[k]
                == raw.map_values(|l: Seq<char>| strip_cr(l))[k] by {
                if k < old_raw.len() {
                    assert(lines@[k] == old_lines[k]);
                    assert(char_views(old_lines)[k] == old_raw.map_values(
                        |l: Seq<char>| strip_cr(l),
                    )[k]);
                }
            }
            assert(char_views(lines@) =~= raw.map_values(|l: Seq<char>| strip_cr(l)));
        } else {
            cur.push(c);
            proof {
                lemma_split_lf_nonempty(before);
            }
            assert(split_lf(before).update(split_lf(before).len() - 1, split_lf(before).last().push(
                c,
            )) =~= raw.push(cur@));
        }
        i = i + 1;
    }
    let ghost p = split_lf(s@.subrange(lo as int, hi as int));
    assert(p.drop_last() =~= raw);
    if cur.len() > 0 {
        let ghost last = cur@;
        lines.push(cur);
        assert(char_views(lines@) =~= raw.map_values(|l: Seq<char>| strip_cr(l)).push(last));
    }
    lines
}

/// Whether `a` and `b` hold the same characters.
pub fn text_equals(a: &str, b: &str) -> (r: bool)
    ensures
        r == (a@ == b@),
{
    let x = chars_of(a);
    let y = chars_of(b);
    let n = x.len();
    if n != y.len() {
        return false;
    }
    let mut i: usize = 0;
    while i < n
        invariant
            n == x@.len(),
            n == y@.len(),
            x@ == a@,
            y@ == b@,
            0 <= i <= n,
            forall|j: int| 0 <= j < i ==> x@[j] == y@[j],
        decreases n - i,
    {
        if x[i] != y[i] {
            assert(x@[i as int] != y@[i as int]);
            return false;
        }
        i = i + 1;
    }
    assert(x@ =~= y@);
    true
}

/// The character sequences held by a sequence of strings.
pub open spec fn string_views(v: Seq<String>) -> Seq<Seq<char>> {
    v.map_values(|x: String| x@)
}

/// The parts joined with `sep` between each two neighbours (`[_]::join`).
pub fn join_strings(parts: &Vec<String>, sep: &str) -> (r: String)
    ensures
        r@ == join_spec(string_views(parts@), sep@),
{
    let mut r = String::new();
    let ghost views = string_views(parts@);
    let mut i: usize = 0;
    assert(views.take(0) =~= Seq::<Seq<char>>::empty());
    while i < parts.len()
        invariant
            views == string_views(parts@),
            0 <= i <= parts@.len(),
            r@ == join_spec(views.take(i as int), sep@),
        decreases parts@.len() - i,
    {
        assert(views.take(i + 1).drop_last() =~= views.take(i as int));
        assert(views.take(i + 1).last() == parts@[i as int]@);
        if i > 0 {
            r.append(sep);
        } else {
            assert(r@ =~= Seq::<char>::empty());
        }
        r.append(parts[i].as_str());
        if i == 0 {
            assert(r@ =~= views.take(1)[0]);
        }
        i = i + 1;
    }
    assert(views.take(parts@.len() as int) =~= views);
    r
}

} // verus!
