//! Character-level text utilities shared by the decoder, the metadata
//! extractor and the catalog codec: conversions between strings and
//! character vectors, line splitting, trimming, ASCII lowercasing and
//! prefix tests, each specified over character sequences.

use vstd::prelude::*;

verus! {

/// Relies on str::chars: the characters of a string, in order.
#[verifier::external_body]
pub fn string_to_chars(s: &str) -> (r: Vec<char>)
    ensures
        r@ == s@,
{
    s.chars().collect()
}

/// Relies on String's FromIterator over characters: the collected string
/// holds exactly the given characters, in order.
#[verifier::external_body]
pub fn chars_to_string(v: &Vec<char>) -> (r: String)
    ensures
        r@ == v@,
{
    v.iter().collect()
}

/// Relies on char::from_u32: `Some` exactly for Unicode scalar values (all
/// code points except the surrogate range), returning the character with
/// the given code.
#[verifier::external_body]
pub fn char_from_code(v: u32) -> (r: Option<char>)
    ensures
        r is Some <==> (v < 0xD800 || (0xE000 <= v && v <= 0x10FFFF)),
        r matches Some(c) ==> c as u32 == v,
{
    char::from_u32(v)
}

/// Unicode white space, as the standard library's character test defines
/// it: the characters carrying the White_Space property.
pub open spec fn is_space(c: char) -> bool {
    let u = c as u32;
    ||| (9 <= u && u <= 13)
    ||| u == 0x20
    ||| u == 0x85
    ||| u == 0xA0
    ||| u == 0x1680
    ||| (0x2000 <= u && u <= 0x200A)
    ||| u == 0x2028
    ||| u == 0x2029
    ||| u == 0x202F
    ||| u == 0x205F
    ||| u == 0x3000
}

fn is_space_char(c: char) -> (r: bool)
    ensures
        r == is_space(c),
{
    let u = c as u32;
    (9 <= u && u <= 13) || u == 0x20 || u == 0x85 || u == 0xA0 || u == 0x1680 || (0x2000 <= u && u
        <= 0x200A) || u == 0x2028 || u == 0x2029 || u == 0x202F || u == 0x205F || u == 0x3000
}

/// The sequence without its leading white space.
pub open spec fn trim_start(s: Seq<char>) -> Seq<char>
    decreases s.len(),
{
    if s.len() > 0 && is_space(s[0]) {
        trim_start(s.drop_first())
    } else {
        s
    }
}

/// The sequence without its trailing white space.
pub open spec fn trim_end(s: Seq<char>) -> Seq<char>
    decreases s.len(),
{
    if s.len() > 0 && is_space(s.last()) {
        trim_end(s.drop_last())
    } else {
        s
    }
}

/// The sequence without its surrounding white space.
pub open spec fn trim(s: Seq<char>) -> Seq<char> {
    trim_end(trim_start(s))
}

/// Copies the characters with surrounding white space removed.
pub fn trim_chars(s: &Vec<char>) -> (r: Vec<char>)
    ensures
        r@ == trim(s@),
{
    let mut lo: usize = 0;
    proof {
        assert(s@.skip(0) =~= s@);
    }
    while lo < s.len() && is_space_char(s[lo])
        invariant
            0 <= lo <= s.len(),
            trim_start(s@) == trim_start(s@.skip(lo as int)),
        decreases s.len() - lo,
    {
        proof {
            assert(s@.skip(lo as int).drop_first() =~= s@.skip(lo as int + 1));
            assert(s@.skip(lo as int)[0] == s@[lo as int]);
        }
        lo = lo + 1;
    }
    proof {
        assert(trim_start(s@) == s@.skip(lo as int));
    }
    let mut hi: usize = s.len();
    proof {
        assert(s@.subrange(lo as int, s@.len() as int) =~= s@.skip(lo as int));
    }
    while hi > lo && is_space_char(s[hi - 1])
        invariant
            lo <= hi <= s.len(),
            trim_start(s@) == s@.skip(lo as int),
            trim_end(s@.skip(lo as int)) == trim_end(s@.subrange(lo as int, hi as int)),
        decreases hi,
    {
        proof {
            assert(s@.subrange(lo as int, hi as int).last() == s@[hi - 1]);
            assert(s@.subrange(lo as int, hi as int).drop_last() =~= s@.subrange(
                lo as int,
                hi as int - 1,
            ));
        }
        hi = hi - 1;
    }
    proof {
        assert(trim_end(s@.subrange(lo as int, hi as int)) == s@.subrange(lo as int, hi as int));
    }
    let mut out: Vec<char> = Vec::new();
    let mut cur: usize = lo;
    while cur < hi
        invariant
            lo <= cur <= hi <= s.len(),
            out@ =~= s@.subrange(lo as int, cur as int),
        decreases hi - cur,
    {
        out.push(s[cur]);
        cur = cur + 1;
    }
    proof {
        assert(out@ =~= trim(s@));
    }
    out
}

/// ASCII lowercasing of one character; everything but `A` through `Z` is
/// untouched.
pub open spec fn to_lower_char(c: char) -> char {
    let u = c as u32;
    if 65 <= u && u <= 90 {
        (u + 32) as char
    } else {
        c
    }
}

/// ASCII lowercasing of a character sequence.
pub open spec fn to_lower(s: Seq<char>) -> Seq<char> {
    s.map_values(|c: char| to_lower_char(c))
}

/// Copies the characters with ASCII letters lowercased.
pub fn to_lower_chars(s: &Vec<char>) -> (r: Vec<char>)
    ensures
        r@ == to_lower(s@),
{
    let mut out: Vec<char> = Vec::new();
    let mut i: usize = 0;
    while i < s.len()
        invariant
            0 <= i <= s.len(),
            out@.len() == i,
            forall|j: int| 0 <= j < i ==> out@[j] == to_lower_char(s@[j]),
        decreases s.len() - i,
    {
        let c = s[i];
        let u = c as u32;
        if 65 <= u && u <= 90 {
            let l = match char_from_code(u + 32) {
                Some(l) => l,
                None => {
                    proof {
                        assert(false);
                    }
                    c
                },
            };
            proof {
                assert(l as u32 == u + 32);
                vstd::utf8::char_u32_cast(l, l as u32);
                assert(l == to_lower_char(c));
            }
            out.push(l);
        } else {
            out.push(c);
        }
        i = i + 1;
    }
    proof {
        assert(out@ =~= to_lower(s@));
    }
    out
}

/// Index of the first line feed at or after `i`, or the length when none
/// remains.
pub open spec fn find_newline(s: Seq<char>, i: int) -> int
    decreases s.len() - i,
{
    if 0 <= i < s.len() {
        if s[i] == '\n' {
            i
        } else {
            find_newline(s, i + 1)
        }
    } else {
        s.len() as int
    }
}

/// One line's text: the span up to the next line feed, with one trailing
/// carriage return removed, as the standard line iterator yields it.
pub open spec fn line_text(s: Seq<char>) -> Seq<char> {
    if s.len() > 0 && s.last() == '\r' {
        s.drop_last()
    } else {
        s
    }
}

/// The lines of the text from position `i` on, split at line feeds; a
/// terminating line feed opens no further empty line.
pub open spec fn lines_from(s: Seq<char>, i: int) -> Seq<Seq<char>>
    decreases s.len() - i,
{
    if 0 <= i < s.len() {
        let k = find_newline(s, i);
        if i <= k && k <= s.len() {
            if k < s.len() {
                seq![line_text(s.subrange(i, k))] + lines_from(s, k + 1)
            } else {
                seq![line_text(s.subrange(i, k))]
            }
        } else {
            Seq::empty()
        }
    } else {
        Seq::empty()
    }
}

/// The lines of a whole text.
pub open spec fn lines_of(s: Seq<char>) -> Seq<Seq<char>> {
    lines_from(s, 0)
}

/// Appending one element to a vector appends its value to the deep view.
pub proof fn lemma_deep_view_push<T: DeepView>(a: Vec<T>, b: Vec<T>, g: T)
    requires
        b@ == a@.push(g),
    ensures
        b.deep_view() == a.deep_view().push(g.deep_view()),
{
    assert forall|j: int| 0 <= j < b.deep_view().len() implies b.deep_view()[j]
        == a.deep_view().push(g.deep_view())[j] by {
        if j < a@.len() {
            assert(b@[j] == a@[j]);
        } else {
            assert(b@[j] == g);
        }
    }
    assert(b.deep_view() =~= a.deep_view().push(g.deep_view()));
}

/// Splits a text into its lines, as the standard line iterator does: line
/// feeds separate lines, one trailing carriage return per line is removed,
/// and a final line feed closes the last line without opening a new one.
pub fn split_lines(text: &Vec<char>) -> (r: Vec<Vec<char>>)
    ensures
        r.deep_view() == lines_of(text@),
{
    let mut out: Vec<Vec<char>> = Vec::new();
    let mut i: usize = 0;
    proof {
        assert(out.deep_view() =~= Seq::<Seq<char>>::empty());
        assert(out.deep_view() + lines_from(text@, 0) =~= lines_of(text@));
    }
    while i < text.len()
        invariant
            0 <= i <= text.len(),
            out.deep_view() + lines_from(text@, i as int) =~= lines_of(text@),
        decreases text.len() - i,
    {
        let mut k: usize = i;
        while k < text.len() && text[k] != '\n'
            invariant
                i <= k <= text.len(),
                find_newline(text@, i as int) == find_newline(text@, k as int),
            decreases text.len() - k,
        {
            k = k + 1;
        }
        proof {
            assert(find_newline(text@, i as int) == k as int);
        }
        let end: usize = if k > i && text[k - 1] == '\r' {
            k - 1
        } else {
            k
        };
        let mut line: Vec<char> = Vec::new();
        let mut cur: usize = i;
        while cur < end
            invariant
                i <= cur <= end <= text.len(),
                line@ =~= text@.subrange(i as int, cur as int),
            decreases end - cur,
        {
            line.push(text[cur]);
            cur = cur + 1;
        }
        proof {
            assert(line@ =~= text@.subrange(i as int, end as int));
            assert(line@ =~= line_text(text@.subrange(i as int, k as int))) by {
                let span = text@.subrange(i as int, k as int);
                if k > i && text@[k - 1] == '\r' {
                    assert(span.last() == text@[k - 1]);
                    assert(span.drop_last() =~= text@.subrange(i as int, k as int - 1));
                }
            }
        }
        let ghost pre = out;
        let ghost lx = line@;
        out.push(line);
        proof {
            lemma_deep_view_push(pre, out, line);
            assert(line.deep_view() =~= lx);
            assert(out.deep_view() == pre.deep_view().push(line_text(
                text@.subrange(i as int, k as int),
            )));
            if k < text.len() {
                assert(lines_from(text@, i as int) == seq![
                    line_text(text@.subrange(i as int, k as int)),
                ] + lines_from(text@, k as int + 1));
                assert(out.deep_view() + lines_from(text@, k as int + 1) =~= pre.deep_view()
                    + lines_from(text@, i as int));
                assert(out.deep_view() + lines_from(text@, k as int + 1) =~= lines_of(text@));
            } else {
                assert(lines_from(text@, i as int) == seq![
                    line_text(text@.subrange(i as int, k as int)),
                ]);
                assert(out.deep_view() + lines_from(text@, k as int) =~= pre.deep_view()
                    + lines_from(text@, i as int));
                assert(out.deep_view() + lines_from(text@, k as int) =~= lines_of(text@));
            }
        }
        i = k;
        if i < text.len() {
            i = i + 1;
        }
    }
    proof {
        assert(lines_from(text@, i as int) =~= Seq::<Seq<char>>::empty());
        assert(out.deep_view() =~= lines_of(text@));
    }
    out
}

/// True when `p` is a prefix of `s`.
pub open spec fn has_prefix(s: Seq<char>, p: Seq<char>) -> bool {
    p.len() <= s.len() && s.take(p.len() as int) == p
}

/// Whether the characters of `p` open the characters of `s`.
pub fn starts_with(s: &Vec<char>, p: &Vec<char>) -> (r: bool)
    ensures
        r == has_prefix(s@, p@),
{
    if p.len() > s.len() {
        proof {
            assert(!has_prefix(s@, p@));
        }
        return false;
    }
    let mut i: usize = 0;
    while i < p.len()
        invariant
            0 <= i <= p.len() <= s.len(),
            forall|j: int| 0 <= j < i ==> s@[j] == p@[j],
        decreases p.len() - i,
    {
        if s[i] != p[i] {
            proof {
                assert(s@.take(p@.len() as int)[i as int] != p@[i as int]);
            }
            return false;
        }
        i = i + 1;
    }
    proof {
        assert(s@.take(p@.len() as int) =~= p@);
    }
    true
}

/// Whether two character vectors hold the same characters.
pub fn chars_eq(a: &Vec<char>, b: &Vec<char>) -> (r: bool)
    ensures
        r == (a@ == b@),
{
    if a.len() != b.len() {
        return false;
    }
    let mut i: usize = 0;
    while i < a.len()
        invariant
            0 <= i <= a.len(),
            a.len() == b.len(),
            forall|j: int| 0 <= j < i ==> a@[j] == b@[j],
        decreases a.len() - i,
    {
        if a[i] != b[i] {
            return false;
        }
        i = i + 1;
    }
    proof {
        assert(a@ =~= b@);
    }
    true
}

/// Copies the characters from position `n` on.
pub fn skip_chars(s: &Vec<char>, n: usize) -> (r: Vec<char>)
    requires
        n <= s@.len(),
    ensures
        r@ == s@.skip(n as int),
{
    let mut out: Vec<char> = Vec::new();
    let mut i: usize = n;
    while i < s.len()
        invariant
            n <= i <= s.len(),
            out@ =~= s@.subrange(n as int, i as int),
        decreases s.len() - i,
    {
        out.push(s[i]);
        i = i + 1;
    }
    proof {
        assert(out@ =~= s@.skip(n as int));
    }
    out
}

} // verus!
