//! Reading streaming manifests: the first media segment a manifest lists,
//! from which a container's thumbnail is rendered.
use vstd::prelude::*;

verus! {

/// A line without the carriage return that ends it, if any.
pub open spec fn strip_cr(l: Seq<char>) -> Seq<char> {
    if l.len() > 0 && l.last() == '\r' { l.drop_last() } else { l }
}

/// Whether `c` is a space, tab, line feed, vertical tab, form feed or
/// carriage return.
pub open spec fn is_blank(c: char) -> bool {
    c == ' ' || c == '\t' || c == '\n' || c == '\x0B' || c == '\x0C' || c == '\r'
}

/// `l` without its leading blanks.
pub open spec fn trim_start(l: Seq<char>) -> Seq<char>
    decreases l.len(),
{
    if l.len() > 0 && is_blank(l[0]) { trim_start(l.subrange(1, l.len() as int)) } else { l }
}

/// Whether a line names a transport-stream segment.
pub open spec fn ends_with_ts(l: Seq<char>) -> bool {
    l.len() >= 3 && l.subrange(l.len() - 3, l.len() as int) == seq!['.', 't', 's']
}

/// The first line of `s` that ends with `.ts`, scanning from position `i`
/// inside a line that began at `start`; lines end at a line feed, which
/// takes a carriage return before it along, and the last line needs none.
pub open spec fn first_ts_line(s: Seq<char>, start: int, i: int) -> Option<Seq<char>>
    decreases s.len() - i,
{
    if i >= s.len() {
        if start < s.len() && ends_with_ts(s.subrange(start, s.len() as int)) {
            Some(trim_start(s.subrange(start, s.len() as int)))
        } else {
            None
        }
    } else if s[i] == '\n' {
        let l = strip_cr(s.subrange(start, i));
        if ends_with_ts(l) { Some(trim_start(l)) } else { first_ts_line(s, i + 1, i + 1) }
    } else {
        first_ts_line(s, start, i + 1)
    }
}

/// The first segment a manifest lists.
pub open spec fn first_segment_spec(content: Seq<char>) -> Option<Seq<char>> {
    first_ts_line(content, 0, 0)
}

fn line_ends_with_ts(s: &str, start: usize, end: usize) -> (r: bool)
    requires
        start <= end <= s@.len(),
    ensures
        r == ends_with_ts(s@.subrange(start as int, end as int)),
{
    let ghost l = s@.subrange(start as int, end as int);
    if end - start < 3 {
        return false;
    }
    let ok = s.get_char(end - 3) == '.' && s.get_char(end - 2) == 't' && s.get_char(end - 1) == 's';
    assert(l.subrange(l.len() - 3, l.len() as int) =~= s@.subrange(end - 3, end as int));
    proof {
        if ok {
            assert(s@.subrange(end - 3, end as int) =~= seq!['.', 't', 's']);
        } else {
            let t = s@.subrange(end - 3, end as int);
            assert(t[0] == s@[end - 3] && t[1] == s@[end - 2] && t[2] == s@[end - 1]);
        }
    }
    ok
}

fn trimmed_from(s: &str, start: usize, end: usize) -> (r: String)
    requires
        start <= end <= s@.len(),
    ensures
        r@ == trim_start(s@.subrange(start as int, end as int)),
{
    let mut k = start;
    while k < end && is_blank_char(s.get_char(k))
        invariant
            start <= k <= end,
            end <= s@.len(),
            trim_start(s@.subrange(start as int, end as int)) == trim_start(s@.subrange(k as int, end as int)),
        decreases end - k,
    {
        let ghost l = s@.subrange(k as int, end as int);
        assert(l.subrange(1, l.len() as int) =~= s@.subrange(k + 1, end as int));
        k = k + 1;
    }
    proof {
        let l = s@.subrange(k as int, end as int);
        if k < end {
            assert(l[0] == s@[k as int]);
        }
    }
    String::from_str(s.substring_char(k, end))
}

fn is_blank_char(c: char) -> (r: bool)
    ensures
        r == is_blank(c),
{
    c == ' ' || c == '\t' || c == '\n' || c == '\x0B' || c == '\x0C' || c == '\r'
}

/// The first segment that a manifest's text lists: its first line that
/// ends with `.ts`, without leading blanks.
pub fn first_segment(content: &str) -> (r: Option<String>)
    ensures
        match r {
            Some(t) => first_segment_spec(content@) == Some(t@),
            None => first_segment_spec(content@).is_none(),
        },
{
    let n = content.unicode_len();
    let mut start: usize = 0;
    let mut i: usize = 0;
    while i < n
        invariant
            n == content@.len(),
            start <= i <= n,
            first_segment_spec(content@) == first_ts_line(content@, start as int, i as int),
        decreases n - i,
    {
        if content.get_char(i) == '\n' {
            let end: usize = if i > start && content.get_char(i - 1) == '\r' { i - 1 } else { i };
            proof {
                let l = content@.subrange(start as int, i as int);
                if i > start {
                    assert(l.last() == content@[i - 1]);
                    assert(l.drop_last() =~= content@.subrange(start as int, i - 1));
                }
                assert(strip_cr(l) == content@.subrange(start as int, end as int));
            }
            if line_ends_with_ts(content, start, end) {
                return Some(trimmed_from(content, start, end));
            }
            start = i + 1;
        }
        i = i + 1;
    }
    if start < n && line_ends_with_ts(content, start, n) {
        Some(trimmed_from(content, start, n))
    } else {
        None
    }
}

} // verus!
