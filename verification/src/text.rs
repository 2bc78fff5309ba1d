use vstd::prelude::*;
use vstd::slice::slice_subrange;

verus! {

/// Collects the characters of `s` into a vector.
pub fn chars_of(s: &str) -> (out: Vec<char>)
    ensures
        out@ == s@,
{
    let mut out: Vec<char> = Vec::new();
    for c in it: s.chars()
        invariant
            out@ == it.seq().take(it.index() as int),
            it.seq() == s@,
    {
        out.push(c);
    }
    out
}

/// White space: the characters that carry Unicode's `White_Space` property.
pub open spec fn is_space(c: char) -> bool {
    ||| '\t' <= c <= '\r'
    ||| c == ' '
    ||| c == '\u{85}'
    ||| c == '\u{a0}'
    ||| c == '\u{1680}'
    ||| '\u{2000}' <= c <= '\u{200a}'
    ||| c == '\u{2028}'
    ||| c == '\u{2029}'
    ||| c == '\u{202f}'
    ||| c == '\u{205f}'
    ||| c == '\u{3000}'
}

/// Tells whether `c` is white space.
pub fn is_space_char(c: char) -> (b: bool)
    ensures
        b == is_space(c),
{
    ('\t' <= c && c <= '\r') || c == ' ' || c == '\u{85}' || c == '\u{a0}' || c == '\u{1680}' || (
    '\u{2000}' <= c && c <= '\u{200a}') || c == '\u{2028}' || c == '\u{2029}' || c == '\u{202f}'
        || c == '\u{205f}' || c == '\u{3000}'
}

/// Whether `marker` stands in `line` at `at`, with white space right behind it.
pub open spec fn marker_at(line: Seq<char>, marker: Seq<char>, at: int) -> bool {
    &&& 0 <= at
    &&& at + marker.len() < line.len()
    &&& line.subrange(at, at + marker.len()) == marker
    &&& is_space(line[at + marker.len()])
}

/// How many white space characters `text` begins with.
pub open spec fn leading_spaces(text: Seq<char>) -> nat
    decreases text.len(),
{
    if text.len() > 0 && is_space(text[0]) {
        1 + leading_spaces(text.drop_first())
    } else {
        0
    }
}

/// Where the payload of `line` begins: behind the last place where `marker`
/// stands with white space behind it, and behind all the white space that
/// follows it there. `None` where the marker stands nowhere so.
pub open spec fn payload_start(line: Seq<char>, marker: Seq<char>) -> Option<int> {
    if exists|at: int| marker_at(line, marker, at) {
        let at = choose|at: int|
            marker_at(line, marker, at) && forall|other: int|
                marker_at(line, marker, other) ==> other <= at;
        let behind = at + marker.len();
        Some(behind + leading_spaces(line.skip(behind)))
    } else {
        None
    }
}

/// The payload of `line` for `marker`: the rest of the line from
/// `payload_start` on.
pub open spec fn payload_after(line: Seq<char>, marker: Seq<char>) -> Option<Seq<char>> {
    match payload_start(line, marker) {
        Some(start) => Some(line.skip(start)),
        None => None,
    }
}

proof fn lemma_leading_spaces(text: Seq<char>, k: int)
    requires
        0 <= k <= text.len(),
        forall|i: int| 0 <= i < k ==> is_space(text[i]),
        k == text.len() || !is_space(text[k]),
    ensures
        leading_spaces(text) == k,
    decreases k,
{
    if k > 0 {
        let rest = text.drop_first();
        assert forall|i: int| 0 <= i < k - 1 implies is_space(rest[i]) by {
            assert(rest[i] == text[i + 1]);
        }
        lemma_leading_spaces(rest, k - 1);
    }
}

/// Tells whether `marker` stands in `line` at `at`.
fn stands_at(line: &[char], marker: &[char], at: usize) -> (b: bool)
    requires
        at + marker@.len() <= line@.len(),
    ensures
        b == (line@.subrange(at as int, at + marker@.len()) == marker@),
{
    let n = line.len();
    let m = marker.len();
    let mut k: usize = 0;
    while k < m
        invariant
            n == line@.len(),
            m == marker@.len(),
            at + m <= n,
            k <= m,
            forall|i: int| 0 <= i < k ==> line@[at + i] == marker@[i],
        decreases m - k,
    {
        if line[at + k] != marker[k] {
            assert(line@.subrange(at as int, at + m)[k as int] != marker@[k as int]);
            return false;
        }
        k += 1;
    }
    assert(line@.subrange(at as int, at + m) =~= marker@);
    true
}

/// Finds where the payload of `line` begins for `marker`.
pub fn find_payload(line: &[char], marker: &[char]) -> (start: Option<usize>)
    ensures
        match start {
            Some(q) => q <= line@.len() && payload_start(line@, marker@) == Some(q as int),
            None => payload_start(line@, marker@) is None,
        },
{
    let n = line.len();
    let m = marker.len();
    if n <= m {
        return None;
    }
    let mut at: usize = n - m;
    while at > 0
        invariant
            n == line@.len(),
            m == marker@.len(),
            m < n,
            at <= n - m,
            forall|k: int| at <= k ==> !marker_at(line@, marker@, k),
        decreases at,
    {
        at -= 1;
        if is_space_char(line[at + m]) && stands_at(line, marker, at) {
            let behind: usize = at + m;
            let mut q: usize = behind;
            while q < n && is_space_char(line[q])
                invariant
                    n == line@.len(),
                    behind <= q <= n,
                    forall|i: int| behind <= i < q ==> is_space(line@[i]),
                decreases n - q,
            {
                q += 1;
            }
            proof {
                let rest = line@.skip(behind as int);
                assert forall|i: int| 0 <= i < q - behind implies is_space(rest[i]) by {
                    assert(rest[i] == line@[behind + i]);
                }
                lemma_leading_spaces(rest, q - behind);
                assert(marker_at(line@, marker@, at as int));
            }
            return Some(q);
        }
    }
    None
}

/// Cuts the payload for `marker` out of `line`.
pub fn payload_of<'a>(line: &'a [char], marker: &[char]) -> (payload: Option<&'a [char]>)
    ensures
        match payload {
            Some(text) => payload_after(line@, marker@) == Some(text@),
            None => payload_after(line@, marker@) is None,
        },
{
    match find_payload(line, marker) {
        Some(start) => {
            let text = slice_subrange(line, start, line.len());
            assert(text@ =~= line@.skip(start as int));
            Some(text)
        },
        None => None,
    }
}

/// The index of the first line feed in `text`, or the length of `text` where
/// it holds none.
pub open spec fn line_end(text: Seq<char>) -> nat
    decreases text.len(),
{
    if text.len() == 0 || text[0] == '\n' {
        0
    } else {
        1 + line_end(text.drop_first())
    }
}

/// `line` without the carriage return at its end, if it ends with one.
pub open spec fn without_cr(line: Seq<char>) -> Seq<char> {
    if line.len() > 0 && line.last() == '\r' {
        line.drop_last()
    } else {
        line
    }
}

/// The lines of `text`. A line ends before a line feed, and a carriage return
/// right before that line feed is no part of it. What follows the last line
/// feed is a line too, as it stands, unless it is empty.
pub open spec fn lines_of(text: Seq<char>) -> Seq<Seq<char>>
    decreases text.len(),
{
    if text.len() == 0 {
        Seq::empty()
    } else {
        let end = line_end(text) as int;
        if end < text.len() {
            seq![without_cr(text.take(end))] + lines_of(text.skip(end + 1))
        } else {
            seq![text]
        }
    }
}

proof fn lemma_line_end(text: Seq<char>, k: int)
    requires
        0 <= k <= text.len(),
        forall|i: int| 0 <= i < k ==> text[i] != '\n',
        k == text.len() || text[k] == '\n',
    ensures
        line_end(text) == k,
    decreases k,
{
    if k > 0 {
        let rest = text.drop_first();
        assert forall|i: int| 0 <= i < k - 1 implies rest[i] != '\n' by {
            assert(rest[i] == text[i + 1]);
        }
        lemma_line_end(rest, k - 1);
    }
}

/// Finds the line that begins at `pos`: it ends before `stop`, and what
/// follows it begins at `next`, behind its line feed.
pub fn next_line(chars: &[char], pos: usize) -> (span: (usize, usize))
    requires
        pos < chars@.len(),
    ensures
        ({
            let (stop, next) = span;
            let end = pos + line_end(chars@.skip(pos as int));
            &&& pos <= stop <= end <= chars@.len()
            &&& next == if end < chars@.len() {
                end + 1
            } else {
                end
            }
            &&& lines_of(chars@.skip(pos as int)) == seq![chars@.subrange(pos as int, stop as int)]
                + lines_of(chars@.skip(next as int))
        }),
{
    let n = chars.len();
    let mut end: usize = pos;
    while end < n && chars[end] != '\n'
        invariant
            n == chars@.len(),
            pos <= end <= n,
            forall|i: int| pos <= i < end ==> chars@[i] != '\n',
        decreases n - end,
    {
        end += 1;
    }
    let ghost text = chars@.skip(pos as int);
    proof {
        assert forall|i: int| 0 <= i < end - pos implies text[i] != '\n' by {
            assert(text[i] == chars@[pos + i]);
        }
        lemma_line_end(text, end - pos);
    }
    if end < n {
        let stop: usize = if end > pos && chars[end - 1] == '\r' {
            end - 1
        } else {
            end
        };
        proof {
            let whole = text.take(end - pos);
            assert(whole =~= chars@.subrange(pos as int, end as int));
            assert(without_cr(whole) =~= chars@.subrange(pos as int, stop as int));
            assert(text.skip(end - pos + 1) =~= chars@.skip(end + 1));
        }
        (stop, end + 1)
    } else {
        proof {
            assert(text =~= chars@.subrange(pos as int, n as int));
            assert(chars@.skip(n as int).len() == 0);
            assert(lines_of(chars@.skip(n as int)) =~= Seq::<Seq<char>>::empty());
            assert(seq![text] + Seq::<Seq<char>>::empty() =~= seq![text]);
        }
        (n, n)
    }
}

} // verus!
