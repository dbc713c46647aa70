//! Character classes, trimming and whitespace splitting over `char` sequences.
use vstd::prelude::*;

verus! {

/// Unicode `White_Space`, the set that `char::is_whitespace` and `str::trim` use.
pub open spec fn is_space(c: char) -> bool {
    let u = c as u32;
    (0x09 <= u && u <= 0x0D) || u == 0x20 || u == 0x85 || u == 0xA0 || u == 0x1680 || (0x2000
        <= u && u <= 0x200A) || u == 0x2028 || u == 0x2029 || u == 0x202F || u == 0x205F || u
        == 0x3000
}

/// ASCII whitespace as `split_ascii_whitespace` uses it: space, tab, line feed,
/// form feed and carriage return.
pub open spec fn is_ascii_space(c: char) -> bool {
    c == ' ' || c == '\t' || c == '\n' || c == '\x0C' || c == '\r'
}

/// `s` without its leading whitespace.
pub open spec fn trim_start(s: Seq<char>) -> Seq<char>
    decreases s.len(),
{
    if s.len() > 0 && is_space(s[0]) {
        trim_start(s.drop_first())
    } else {
        s
    }
}

/// `s` without its trailing whitespace.
pub open spec fn trim_end(s: Seq<char>) -> Seq<char>
    decreases s.len(),
{
    if s.len() > 0 && is_space(s.last()) {
        trim_end(s.drop_last())
    } else {
        s
    }
}

/// `s` without whitespace at either end.
pub open spec fn trim(s: Seq<char>) -> Seq<char> {
    trim_end(trim_start(s))
}

/// Splitting `s` read left to right: the fields closed so far, and the field
/// still open at the end of `s` (empty when `s` ends in whitespace).
pub open spec fn split_state(s: Seq<char>) -> (Seq<Seq<char>>, Seq<char>)
    decreases s.len(),
{
    if s.len() == 0 {
        (seq![], seq![])
    } else {
        let (done, open) = split_state(s.drop_last());
        if is_ascii_space(s.last()) {
            if open.len() > 0 {
                (done.push(open), seq![])
            } else {
                (done, seq![])
            }
        } else {
            (done, open.push(s.last()))
        }
    }
}

/// The maximal runs of characters of `s` that are not ASCII whitespace, in order.
pub open spec fn fields(s: Seq<char>) -> Seq<Seq<char>> {
    let (done, open) = split_state(s);
    if open.len() > 0 {
        done.push(open)
    } else {
        done
    }
}

/// The character sequences held by a sequence of vectors.
pub open spec fn views(v: Seq<Vec<char>>) -> Seq<Seq<char>> {
    v.map_values(|x: Vec<char>| x@)
}

pub fn is_space_char(c: char) -> (r: bool)
    ensures
        r == is_space(c),
{
    let u = c as u32;
    (0x09 <= u && u <= 0x0D) || u == 0x20 || u == 0x85 || u == 0xA0 || u == 0x1680 || (0x2000
        <= u && u <= 0x200A) || u == 0x2028 || u == 0x2029 || u == 0x202F || u == 0x205F || u
        == 0x3000
}

pub fn is_ascii_space_char(c: char) -> (r: bool)
    ensures
        r == is_ascii_space(c),
{
    c == ' ' || c == '\t' || c == '\n' || c == '\x0C' || c == '\r'
}

proof fn lemma_trim_start_step(s: Seq<char>, i: int)
    requires
        0 <= i < s.len(),
        is_space(s[i]),
    ensures
        trim_start(s.subrange(i, s.len() as int)) == trim_start(s.subrange(i + 1, s.len() as int)),
{
    assert(s.subrange(i, s.len() as int).drop_first() =~= s.subrange(i + 1, s.len() as int));
}

proof fn lemma_trim_end_step(s: Seq<char>, j: int)
    requires
        0 < j <= s.len(),
        is_space(s[j - 1]),
    ensures
        trim_end(s.subrange(0, j)) == trim_end(s.subrange(0, j - 1)),
{
    assert(s.subrange(0, j).drop_last() =~= s.subrange(0, j - 1));
}

/// The bounds `(a, b)` of the trimmed part of `line`: `trim(line) == line[a..b]`.
pub fn trim_bounds(line: &Vec<char>) -> (r: (usize, usize))
    ensures
        r.0 <= r.1 <= line@.len(),
        trim(line@) == line@.subrange(r.0 as int, r.1 as int),
{
    let n = line.len();
    let mut a: usize = 0;
    assert(line@.subrange(0, n as int) =~= line@);
    while a < n && is_space_char(line[a])
        invariant
            a <= n == line@.len(),
            trim_start(line@) == trim_start(line@.subrange(a as int, n as int)),
        decreases n - a,
    {
        proof {
            lemma_trim_start_step(line@, a as int);
        }
        a = a + 1;
    }
    let ghost rest = line@.subrange(a as int, n as int);
    assert(trim_start(line@) == rest) by {
        if a < n {
            assert(rest[0] == line@[a as int]);
        }
    }
    let mut b: usize = n;
    while b > a && is_space_char(line[b - 1])
        invariant
            a <= b <= n == line@.len(),
            rest == line@.subrange(a as int, n as int),
            trim_end(rest) == trim_end(line@.subrange(a as int, b as int)),
        decreases b,
    {
        proof {
            let t = line@.subrange(a as int, b as int);
            lemma_trim_end_step(t, (b - a) as int);
            assert(t.subrange(0, (b - a) as int) =~= t);
            assert(t.subrange(0, (b - a - 1) as int) =~= line@.subrange(a as int, b - 1));
        }
        b = b - 1;
    }
    proof {
        let t = line@.subrange(a as int, b as int);
        if b > a {
            assert(t.last() == line@[b - 1]);
        }
        assert(trim_end(t) == t);
    }
    (a, b)
}

proof fn lemma_split_step(s: Seq<char>, i: int)
    requires
        0 <= i < s.len(),
    ensures
        split_state(s.subrange(0, i + 1)) == ({
            let (done, open) = split_state(s.subrange(0, i));
            if is_ascii_space(s[i]) {
                if open.len() > 0 {
                    (done.push(open), seq![])
                } else {
                    (done, seq![])
                }
            } else {
                (done, open.push(s[i]))
            }
        }),
{
    let t = s.subrange(0, i + 1);
    assert(t.drop_last() =~= s.subrange(0, i));
    assert(t.last() == s[i]);
}

/// The fields of `line[a..b]`.
pub fn split_fields(line: &Vec<char>, a: usize, b: usize) -> (r: Vec<Vec<char>>)
    requires
        a <= b <= line@.len(),
    ensures
        views(r@) == fields(line@.subrange(a as int, b as int)),
{
    let ghost s = line@.subrange(a as int, b as int);
    let mut done: Vec<Vec<char>> = Vec::new();
    let mut open: Vec<char> = Vec::new();
    let mut i: usize = a;
    while i < b
        invariant
            a <= i <= b <= line@.len(),
            s == line@.subrange(a as int, b as int),
            (views(done@), open@) == split_state(s.subrange(0, i - a)),
        decreases b - i,
    {
        let c = line[i];
        proof {
            lemma_split_step(s, (i - a) as int);
            assert(s[(i - a) as int] == c);
        }
        if is_ascii_space_char(c) {
            if open.len() > 0 {
                let ghost before = views(done@);
                let closed = open;
                open = Vec::new();
                done.push(closed);
                assert(views(done@) =~= before.push(closed@));
            }
            assert(open@ =~= seq![]);
        } else {
            open.push(c);
        }
        i = i + 1;
    }
    assert(s.subrange(0, (b - a) as int) =~= s);
    if open.len() > 0 {
        let ghost before = views(done@);
        done.push(open);
        assert(views(done@) =~= before.push(open@));
    }
    done
}

} // verus!
