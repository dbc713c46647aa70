//! Reading a line list: text with one `FREQUENCY INTENSITY` record per line.
//!
//! A line whose trimmed text starts with `#` is a comment. Any other line must
//! hold exactly two fields separated by ASCII whitespace; a line with another
//! number of fields (a blank line among them) is skipped and its 1-based number
//! reported. Both fields of a record must be real numbers: one that is not
//! fails the whole load.
use vstd::prelude::*;

use crate::number::{is_real, is_real_field};
use crate::text::{fields, split_fields, trim, trim_bounds, views};

verus! {

/// Splitting `s` at line feeds, read left to right: the lines finished so far
/// and the line still open at the end of `s`.
pub open spec fn line_state(s: Seq<char>) -> (Seq<Seq<char>>, Seq<char>)
    decreases s.len(),
{
    if s.len() == 0 {
        (seq![], seq![])
    } else {
        let (done, open) = line_state(s.drop_last());
        if s.last() == '\n' {
            (done.push(open), seq![])
        } else {
            (done, open.push(s.last()))
        }
    }
}

/// The lines of `s`. A line feed ends a line, so text that ends in one has no
/// empty line after it. A carriage return before the line feed stays on the
/// line; trimming removes it.
pub open spec fn text_lines(s: Seq<char>) -> Seq<Seq<char>> {
    let (done, open) = line_state(s);
    if open.len() > 0 {
        done.push(open)
    } else {
        done
    }
}

pub open spec fn is_comment(line: Seq<char>) -> bool {
    trim(line).len() > 0 && trim(line)[0] == '#'
}

pub open spec fn line_fields(line: Seq<char>) -> Seq<Seq<char>> {
    fields(trim(line))
}

/// A line that holds a record: not a comment, two fields.
pub open spec fn is_record(line: Seq<char>) -> bool {
    !is_comment(line) && line_fields(line).len() == 2
}

/// A line that is skipped: not a comment, and not two fields.
pub open spec fn is_skipped(line: Seq<char>) -> bool {
    !is_comment(line) && line_fields(line).len() != 2
}

/// A record line with a field that is not a real number.
pub open spec fn is_bad(line: Seq<char>) -> bool {
    is_record(line) && !(is_real(line_fields(line)[0]) && is_real(line_fields(line)[1]))
}

/// The records of `lines` in order: 1-based line number, frequency field,
/// intensity field.
pub open spec fn records_of(lines: Seq<Seq<char>>) -> Seq<(nat, Seq<char>, Seq<char>)>
    decreases lines.len(),
{
    if lines.len() == 0 {
        seq![]
    } else {
        let earlier = records_of(lines.drop_last());
        let line = lines.last();
        if is_record(line) {
            earlier.push((lines.len(), line_fields(line)[0], line_fields(line)[1]))
        } else {
            earlier
        }
    }
}

/// The 1-based numbers of the skipped lines of `lines`, in order.
pub open spec fn skipped_of(lines: Seq<Seq<char>>) -> Seq<nat>
    decreases lines.len(),
{
    if lines.len() == 0 {
        seq![]
    } else {
        let earlier = skipped_of(lines.drop_last());
        if is_skipped(lines.last()) {
            earlier.push(lines.len())
        } else {
            earlier
        }
    }
}

/// The 1-based number of the first bad line of `lines`, if there is one.
pub open spec fn first_bad(lines: Seq<Seq<char>>) -> Option<nat>
    decreases lines.len(),
{
    if lines.len() == 0 {
        None
    } else {
        match first_bad(lines.drop_last()) {
            Some(k) => Some(k),
            None => if is_bad(lines.last()) {
                Some(lines.len())
            } else {
                None
            },
        }
    }
}

/// One spectral line as read: where it stands and its two fields.
pub struct Record {
    /// 1-based number of the text line.
    pub line: usize,
    pub frequency: String,
    pub intensity: String,
}

/// The records of a line list and the lines that were skipped.
pub struct LineList {
    pub records: Vec<Record>,
    /// 1-based numbers of the lines that were skipped, in order.
    pub skipped: Vec<usize>,
}

#[derive(Clone, Copy, Debug, PartialEq, Eq, Structural)]
pub enum LoadError {
    /// A record on this 1-based line has a field that is not a real number.
    BadNumber { line: usize },
}

pub open spec fn record_views(v: Seq<Record>) -> Seq<(nat, Seq<char>, Seq<char>)> {
    v.map_values(|r: Record| (r.line as nat, r.frequency@, r.intensity@))
}

pub open spec fn line_numbers(v: Seq<usize>) -> Seq<nat> {
    v.map_values(|k: usize| k as nat)
}

/// Relies on `String`'s `FromIterator<char>`: the string holds the characters in order.
#[verifier::external_body]
fn string_from_chars(v: &Vec<char>) -> (r: String)
    ensures
        r@ == v@,
{
    v.iter().collect()
}

/// Handles one line, numbered `number`: pushes its record or its number, or
/// returns `false` where the line is bad.
fn take_line(
    line: &Vec<char>,
    number: usize,
    records: &mut Vec<Record>,
    skipped: &mut Vec<usize>,
) -> (ok: bool)
    ensures
        ok == !is_bad(line@),
        ok ==> record_views(final(records)@) == if is_record(line@) {
            record_views(old(records)@).push(
                (number as nat, line_fields(line@)[0], line_fields(line@)[1]),
            )
        } else {
            record_views(old(records)@)
        },
        ok ==> line_numbers(final(skipped)@) == if is_skipped(line@) {
            line_numbers(old(skipped)@).push(number as nat)
        } else {
            line_numbers(old(skipped)@)
        },
{
    let (a, b) = trim_bounds(line);
    if a < b && line[a] == '#' {
        return true;
    }
    let f = split_fields(line, a, b);
    assert(views(f@) == line_fields(line@));
    if f.len() != 2 {
        let ghost before = line_numbers(skipped@);
        skipped.push(number);
        assert(line_numbers(skipped@) =~= before.push(number as nat));
        return true;
    }
    assert(views(f@)[0] == f@[0]@);
    assert(views(f@)[1] == f@[1]@);
    if !is_real_field(&f[0]) || !is_real_field(&f[1]) {
        return false;
    }
    let frequency = string_from_chars(&f[0]);
    let intensity = string_from_chars(&f[1]);
    let ghost before = record_views(records@);
    records.push(Record { line: number, frequency, intensity });
    assert(record_views(records@) =~= before.push(
        (number as nat, line_fields(line@)[0], line_fields(line@)[1]),
    ));
    true
}

proof fn lemma_line_step(s: Seq<char>, i: int)
    requires
        0 <= i < s.len(),
    ensures
        line_state(s.take(i + 1)) == ({
            let (done, open) = line_state(s.take(i));
            if s[i] == '\n' {
                (done.push(open), seq![])
            } else {
                (done, open.push(s[i]))
            }
        }),
{
    assert(s.take(i + 1).drop_last() =~= s.take(i));
    assert(s.take(i + 1).last() == s[i]);
}

proof fn lemma_model_step(lines: Seq<Seq<char>>, line: Seq<char>)
    ensures
        records_of(lines.push(line)) == if is_record(line) {
            records_of(lines).push(
                ((lines.len() + 1) as nat, line_fields(line)[0], line_fields(line)[1]),
            )
        } else {
            records_of(lines)
        },
        skipped_of(lines.push(line)) == if is_skipped(line) {
            skipped_of(lines).push((lines.len() + 1) as nat)
        } else {
            skipped_of(lines)
        },
        first_bad(lines.push(line)) == match first_bad(lines) {
            Some(k) => Some(k),
            None => if is_bad(line) {
                Some((lines.len() + 1) as nat)
            } else {
                None
            },
        },
{
    assert(lines.push(line).drop_last() =~= lines);
    assert(lines.push(line).last() == line);
}

pub open spec fn is_prefix(a: Seq<Seq<char>>, b: Seq<Seq<char>>) -> bool {
    a.len() <= b.len() && b.subrange(0, a.len() as int) == a
}

/// The lines finished within the first `i` characters of `s` begin the lines of `s`.
proof fn lemma_lines_prefix(s: Seq<char>, i: int)
    requires
        0 <= i <= s.len(),
    ensures
        is_prefix(line_state(s.take(i)).0, text_lines(s)),
    decreases s.len() - i,
{
    let done = line_state(s.take(i)).0;
    if i == s.len() {
        assert(s.take(i) =~= s);
        let lines = text_lines(s);
        assert(lines.subrange(0, done.len() as int) =~= done);
    } else {
        lemma_line_step(s, i);
        lemma_lines_prefix(s, i + 1);
        let next = line_state(s.take(i + 1)).0;
        let lines = text_lines(s);
        assert(next.subrange(0, done.len() as int) =~= done);
        assert(lines.subrange(0, done.len() as int) =~= next.subrange(0, done.len() as int));
    }
}

/// A bad line stays the first bad line when more lines follow.
proof fn lemma_first_bad_prefix(a: Seq<Seq<char>>, b: Seq<Seq<char>>)
    requires
        is_prefix(a, b),
        first_bad(a) is Some,
    ensures
        first_bad(b) == first_bad(a),
    decreases b.len(),
{
    if b.len() == a.len() {
        assert(b =~= a);
    } else {
        let c = b.drop_last();
        assert(c.subrange(0, a.len() as int) =~= b.subrange(0, a.len() as int));
        lemma_first_bad_prefix(a, c);
    }
}

/// The characters of `text` in order.
fn chars_of(text: &str) -> (r: Vec<char>)
    ensures
        r@ == text@,
{
    let mut v: Vec<char> = Vec::new();
    for c in it: text.chars()
        invariant
            it.seq() == text@,
            v@ == text@.take(it.index() as int),
    {
        assert(text@.take(it.index() + 1) =~= v@.push(c));
        v.push(c);
    }
    assert(text@.take(text@.len() as int) =~= text@);
    v
}

impl LineList {
    /// Reads a line list from `text`. Fails on the first record whose fields are
    /// not both real numbers; otherwise holds every record in the order of the
    /// text, with the numbers of the skipped lines.
    pub fn load(text: &str) -> (r: Result<LineList, LoadError>)
        ensures
            match r {
                Ok(list) => {
                    &&& first_bad(text_lines(text@)) is None
                    &&& record_views(list.records@) == records_of(text_lines(text@))
                    &&& line_numbers(list.skipped@) == skipped_of(text_lines(text@))
                },
                Err(LoadError::BadNumber { line }) => first_bad(text_lines(text@)) == Some(
                    line as nat,
                ),
            },
    {
        let chars = chars_of(text);
        let n = chars.len();
        let mut records: Vec<Record> = Vec::new();
        let mut skipped: Vec<usize> = Vec::new();
        let mut open: Vec<char> = Vec::new();
        let mut number: usize = 0;
        let ghost mut done: Seq<Seq<char>> = seq![];
        let mut i: usize = 0;
        assert(record_views(records@) =~= seq![]);
        assert(line_numbers(skipped@) =~= seq![]);
        while i < n
            invariant
                n == chars@.len(),
                chars@ == text@,
                i <= n,
                (done, open@) == line_state(chars@.take(i as int)),
                number == done.len(),
                number + open@.len() <= i,
                first_bad(done) is None,
                record_views(records@) == records_of(done),
                line_numbers(skipped@) == skipped_of(done),
            decreases n - i,
        {
            let c = chars[i];
            proof {
                lemma_line_step(chars@, i as int);
            }
            if c == '\n' {
                number = number + 1;
                proof {
                    lemma_model_step(done, open@);
                }
                if !take_line(&open, number, &mut records, &mut skipped) {
                    proof {
                        lemma_lines_prefix(chars@, i + 1);
                        lemma_first_bad_prefix(done.push(open@), text_lines(text@));
                    }
                    return Err(LoadError::BadNumber { line: number });
                }
                proof {
                    done = done.push(open@);
                }
                open = Vec::new();
                assert(open@ =~= seq![]);
            } else {
                open.push(c);
            }
            i = i + 1;
        }
        assert(chars@.take(n as int) =~= text@);
        if open.len() > 0 {
            number = number + 1;
            proof {
                lemma_model_step(done, open@);
            }
            if !take_line(&open, number, &mut records, &mut skipped) {
                return Err(LoadError::BadNumber { line: number });
            }
        }
        Ok(LineList { records, skipped })
    }
}

} // verus!
