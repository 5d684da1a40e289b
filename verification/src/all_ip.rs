//! Looking a domain up in the text of the known-addresses file.
//!
//! The file holds one `domain=address` entry per line. Spaces around each
//! line and around both sides of the first `=` do not count; empty lines
//! and lines starting with `#` are skipped. The first entry for the domain
//! gives its address; a line without `=` before it ends the search with no
//! answer.
use vstd::prelude::*;

verus! {

broadcast use vstd::string::group_string_axioms;

/// Whether `c` has the Unicode White_Space property, as `char::is_whitespace`
/// tests it.
pub open spec fn is_whitespace(c: char) -> bool {
    let u = c as u32;
    (0x09 <= u <= 0x0d) || u == 0x20 || u == 0x85 || u == 0xa0 || u == 0x1680 || (0x2000 <= u
        <= 0x200a) || u == 0x2028 || u == 0x2029 || u == 0x202f || u == 0x205f || u == 0x3000
}

/// `s` without its leading white space.
pub open spec fn trim_start(s: Seq<char>) -> Seq<char>
    decreases s.len(),
{
    if s.len() > 0 && is_whitespace(s[0]) {
        trim_start(s.drop_first())
    } else {
        s
    }
}

/// `s` without its trailing white space.
pub open spec fn trim_end(s: Seq<char>) -> Seq<char>
    decreases s.len(),
{
    if s.len() > 0 && is_whitespace(s.last()) {
        trim_end(s.drop_last())
    } else {
        s
    }
}

/// `s` without white space at either end.
pub open spec fn trim(s: Seq<char>) -> Seq<char> {
    trim_end(trim_start(s))
}

/// Index of the first `c` in `s`, or the length of `s` when there is none.
pub open spec fn first_index_of(s: Seq<char>, c: char) -> int
    decreases s.len(),
{
    if s.len() == 0 {
        0
    } else if s[0] == c {
        0
    } else {
        1 + first_index_of(s.drop_first(), c)
    }
}

pub proof fn lemma_first_index_of_bounds(s: Seq<char>, c: char)
    ensures
        0 <= first_index_of(s, c) <= s.len(),
    decreases s.len(),
{
    if s.len() > 0 && s[0] != c {
        lemma_first_index_of_bounds(s.drop_first(), c);
    }
}

proof fn lemma_first_index_of_facts(s: Seq<char>, c: char)
    ensures
        0 <= first_index_of(s, c) <= s.len(),
        first_index_of(s, c) < s.len() ==> s[first_index_of(s, c)] == c,
        forall|m: int| 0 <= m < first_index_of(s, c) ==> s[m] != c,
    decreases s.len(),
{
    if s.len() > 0 && s[0] != c {
        lemma_first_index_of_facts(s.drop_first(), c);
        assert forall|m: int| 0 <= m < first_index_of(s, c) implies s[m] != c by {
            if m > 0 {
                assert(s[m] == s.drop_first()[m - 1]);
            }
        }
    }
}

/// Whether `text[i..j]` is a whole line of `text`: it starts at the start of
/// the text or after a line feed, ends at the end of the text or at a line
/// feed, and holds none.
pub open spec fn is_whole_line(text: Seq<char>, i: int, j: int) -> bool {
    &&& 0 <= i <= j <= text.len()
    &&& i == 0 || text[i - 1] == '\n'
    &&& j == text.len() || text[j] == '\n'
    &&& forall|m: int| i <= m < j ==> text[m] != '\n'
}

/// Whether the line `text[i..j]`, trimmed, is an entry whose trimmed key,
/// before its first `=`, is exactly `domain` and whose trimmed value, after
/// that `=`, is `addr`.
pub open spec fn is_entry_for(text: Seq<char>, i: int, j: int, domain: Seq<char>, addr: Seq<
    char,
>) -> bool {
    let line = trim(text.subrange(i, j));
    let k = first_index_of(line, '=');
    &&& k < line.len()
    &&& trim(line.take(k)) == domain
    &&& trim(line.skip(k + 1)) == addr
}

/// The address that the known-addresses text `text` gives `domain`.
pub open spec fn known_ip_lookup(text: Seq<char>, domain: Seq<char>) -> Option<Seq<char>>
    decreases text.len(),
{
    if text.len() == 0 {
        None
    } else {
        let n = first_index_of(text, '\n');
        proof {
            lemma_first_index_of_bounds(text, '\n');
        }
        let line = trim(text.take(n));
        let rest = if n < text.len() {
            text.skip(n + 1)
        } else {
            Seq::empty()
        };
        if line.len() == 0 || line[0] == '#' {
            known_ip_lookup(rest, domain)
        } else {
            let k = first_index_of(line, '=');
            if k >= line.len() {
                None
            } else if trim(line.take(k)) == domain {
                Some(trim(line.skip(k + 1)))
            } else {
                known_ip_lookup(rest, domain)
            }
        }
    }
}

/// The characters of `s`.
pub fn chars_of(s: &str) -> (r: Vec<char>)
    ensures
        r@ == s@,
{
    let mut v: Vec<char> = Vec::new();
    for c in it: s.chars()
        invariant
            v@ == it.seq().take(it.index()),
            it.seq() == s@,
    {
        v.push(c);
    }
    assert(v@ =~= s@);
    v
}

/// Whether `c` has the Unicode White_Space property.
pub fn char_is_whitespace(c: char) -> (r: bool)
    ensures
        r == is_whitespace(c),
{
    let u = c as u32;
    (0x09 <= u && u <= 0x0d) || u == 0x20 || u == 0x85 || u == 0xa0 || u == 0x1680 || (0x2000 <= u
        && u <= 0x200a) || u == 0x2028 || u == 0x2029 || u == 0x202f || u == 0x205f || u == 0x3000
}

/// Index of the first `c` in `text[from..to]`, or `to`.
fn find_char(text: &Vec<char>, from: usize, to: usize, c: char) -> (r: usize)
    requires
        from <= to <= text@.len(),
    ensures
        from <= r <= to,
        r - from == first_index_of(text@.subrange(from as int, to as int), c),
{
    let mut k = from;
    while k < to
        invariant
            from <= k <= to,
            to <= text@.len(),
            first_index_of(text@.subrange(from as int, to as int), c) == (k - from)
                + first_index_of(text@.subrange(k as int, to as int), c),
        decreases to - k,
    {
        if text[k] == c {
            return k;
        }
        assert(text@.subrange(k as int, to as int).drop_first() =~= text@.subrange(
            k + 1,
            to as int,
        ));
        k = k + 1;
    }
    k
}

/// Bounds of `trim(text[from..to])` inside `text`.
fn trim_bounds(text: &Vec<char>, from: usize, to: usize) -> (r: (usize, usize))
    requires
        from <= to <= text@.len(),
    ensures
        from <= r.0 <= r.1 <= to,
        text@.subrange(r.0 as int, r.1 as int) == trim(text@.subrange(from as int, to as int)),
{
    let mut lo = from;
    while lo < to && char_is_whitespace(text[lo])
        invariant
            from <= lo <= to,
            to <= text@.len(),
            trim_start(text@.subrange(from as int, to as int)) == trim_start(
                text@.subrange(lo as int, to as int),
            ),
        decreases to - lo,
    {
        assert(text@.subrange(lo as int, to as int).drop_first() =~= text@.subrange(
            lo + 1,
            to as int,
        ));
        lo = lo + 1;
    }
    let mut hi = to;
    while hi > lo && char_is_whitespace(text[hi - 1])
        invariant
            lo <= hi <= to,
            to <= text@.len(),
            trim_start(text@.subrange(from as int, to as int)) == text@.subrange(
                lo as int,
                to as int,
            ),
            trim_end(text@.subrange(lo as int, to as int)) == trim_end(
                text@.subrange(lo as int, hi as int),
            ),
        decreases hi - lo,
    {
        assert(text@.subrange(lo as int, hi as int).drop_last() =~= text@.subrange(
            lo as int,
            hi - 1,
        ));
        hi = hi - 1;
    }
    (lo, hi)
}

/// Whether `text[from..to]` equals `word`.
fn range_equals(text: &Vec<char>, from: usize, to: usize, word: &Vec<char>) -> (r: bool)
    requires
        from <= to <= text@.len(),
    ensures
        r == (text@.subrange(from as int, to as int) == word@),
{
    if to - from != word.len() {
        return false;
    }
    let mut i: usize = 0;
    while i < word.len()
        invariant
            i <= word@.len(),
            to - from == word@.len(),
            from <= to <= text@.len(),
            forall|j: int| 0 <= j < i ==> text@[from + j] == word@[j],
        decreases word@.len() - i,
    {
        if text[from + i] != word[i] {
            assert(text@.subrange(from as int, to as int)[i as int] != word@[i as int]);
            return false;
        }
        i = i + 1;
    }
    assert(text@.subrange(from as int, to as int) =~= word@);
    true
}

/// Looks `domain` up in `content`, the text of the known-addresses file:
/// the address of its first entry, as `known_ip_lookup` states.
pub fn lookup_known_ip(content: &str, domain: &str) -> (r: Option<String>)
    ensures
        match r {
            Some(s) => known_ip_lookup(content@, domain@) == Some(s@),
            None => known_ip_lookup(content@, domain@) is None,
        },
{
    let text = chars_of(content);
    let dom = chars_of(domain);
    let len = text.len();
    let mut pos: usize = 0;
    assert(text@.skip(0) =~= text@);
    while pos < len
        invariant
            pos <= len,
            len == text@.len(),
            text@ == content@,
            dom@ == domain@,
            known_ip_lookup(text@, dom@) == known_ip_lookup(text@.skip(pos as int), dom@),
        decreases len - pos,
    {
        let ghost s = text@.skip(pos as int);
        let end = find_char(&text, pos, len, '\n');
        assert(text@.subrange(pos as int, len as int) =~= s);
        assert(s.take(end - pos) =~= text@.subrange(pos as int, end as int));
        let (lo, hi) = trim_bounds(&text, pos, end);
        let rest_pos = if end < len {
            end + 1
        } else {
            len
        };
        proof {
            if end < len {
                assert(s.skip(end - pos + 1) =~= text@.skip(rest_pos as int));
            } else {
                assert(text@.skip(rest_pos as int) =~= Seq::<char>::empty());
            }
        }
        if lo == hi || text[lo] == '#' {
            pos = rest_pos;
        } else {
            let ghost line = text@.subrange(lo as int, hi as int);
            let eq = find_char(&text, lo, hi, '=');
            if eq == hi {
                return None;
            }
            assert(line.take(eq - lo) =~= text@.subrange(lo as int, eq as int));
            assert(line.skip(eq - lo + 1) =~= text@.subrange(eq + 1, hi as int));
            let (klo, khi) = trim_bounds(&text, lo, eq);
            if range_equals(&text, klo, khi, &dom) {
                let (vlo, vhi) = trim_bounds(&text, eq + 1, hi);
                let found = content.substring_char(vlo, vhi);
                return Some(found.to_owned());
            }
            pos = rest_pos;
        }
    }
    assert(text@.skip(pos as int) =~= Seq::<char>::empty());
    None
}

/// An address is only ever found in an entry for the domain itself: some
/// whole line of the text is an entry whose key, trimmed, equals the domain
/// exactly (a key that merely ends or starts with it does not count) and
/// whose value, trimmed, is the address.
pub proof fn lemma_found_address_comes_from_entry(text: Seq<char>, domain: Seq<char>, addr: Seq<
    char,
>)
    requires
        known_ip_lookup(text, domain) == Some(addr),
    ensures
        exists|i: int, j: int| is_whole_line(text, i, j) && is_entry_for(text, i, j, domain, addr),
    decreases text.len(),
{
    let n = first_index_of(text, '\n');
    lemma_first_index_of_facts(text, '\n');
    assert(text.take(n) =~= text.subrange(0, n));
    let line = trim(text.take(n));
    let k = first_index_of(line, '=');
    if !(line.len() == 0 || line[0] == '#') && k < line.len() && trim(line.take(k)) == domain {
        assert(is_whole_line(text, 0, n));
        assert(is_entry_for(text, 0, n, domain, addr));
    } else {
        let rest = if n < text.len() {
            text.skip(n + 1)
        } else {
            Seq::empty()
        };
        assert(known_ip_lookup(rest, domain) == Some(addr));
        if n >= text.len() {
            assert(rest.len() == 0);
        }
        assert(n < text.len());
        lemma_found_address_comes_from_entry(rest, domain, addr);
        let (i2, j2) = choose|i: int, j: int|
            is_whole_line(rest, i, j) && is_entry_for(rest, i, j, domain, addr);
        let i = i2 + n + 1;
        let j = j2 + n + 1;
        assert(text.subrange(i, j) =~= rest.subrange(i2, j2));
        assert forall|m: int| i <= m < j implies text[m] != '\n' by {
            assert(text[m] == rest[m - n - 1]);
        }
        if i2 > 0 {
            assert(text[i - 1] == rest[i2 - 1]);
        }
        if j2 < rest.len() {
            assert(text[j] == rest[j2]);
        }
        assert(is_whole_line(text, i, j));
        assert(is_entry_for(text, i, j, domain, addr));
    }
}

} // verus!
