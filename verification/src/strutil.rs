use vstd::prelude::*;
use vstd::string::StrSliceExecFns;
use vstd::string::StringExecFns;

verus! {

// ---------------------------------------------------------------------------
// Lexicographic order on character sequences (the order `str` comparison
// induces, since UTF-8 byte order agrees with code-point order).
// ---------------------------------------------------------------------------

pub open spec fn str_le(a: Seq<char>, b: Seq<char>) -> bool
    decreases a.len(),
{
    if a.len() == 0 {
        true
    } else if b.len() == 0 {
        false
    } else if a[0] == b[0] {
        str_le(a.drop_first(), b.drop_first())
    } else {
        (a[0] as u32) < (b[0] as u32)
    }
}

pub proof fn lemma_str_le_total(a: Seq<char>, b: Seq<char>)
    ensures
        str_le(a, b) || str_le(b, a),
    decreases a.len(),
{
    if a.len() == 0 || b.len() == 0 {
    } else if a[0] == b[0] {
        lemma_str_le_total(a.drop_first(), b.drop_first());
    } else {
        vstd::utf8::char_u32_cast(a[0], a[0] as u32);
        vstd::utf8::char_u32_cast(b[0], b[0] as u32);
        assert((a[0] as u32) != (b[0] as u32));
    }
}

pub proof fn lemma_str_le_trans(a: Seq<char>, b: Seq<char>, c: Seq<char>)
    requires
        str_le(a, b),
        str_le(b, c),
    ensures
        str_le(a, c),
    decreases a.len(),
{
    if a.len() == 0 || b.len() == 0 || c.len() == 0 {
    } else if a[0] == b[0] && b[0] == c[0] {
        lemma_str_le_trans(a.drop_first(), b.drop_first(), c.drop_first());
    }
}

/// If `a` and `b` agree on their first `i` characters, the comparison is
/// decided by the remainders.
proof fn lemma_str_le_skip(a: Seq<char>, b: Seq<char>, i: int)
    requires
        0 <= i <= a.len(),
        i <= b.len(),
        a.subrange(0, i) == b.subrange(0, i),
    ensures
        str_le(a, b) == str_le(a.skip(i), b.skip(i)),
    decreases i,
{
    if i > 0 {
        assert(a.subrange(0, i)[0] == a[0]);
        assert(b.subrange(0, i)[0] == b[0]);
        assert(a[0] == b[0]);
        assert(a.drop_first().subrange(0, i - 1) =~= b.drop_first().subrange(0, i - 1)) by {
            assert forall|j: int| 0 <= j < i - 1 implies #[trigger] a.drop_first().subrange(
                0,
                i - 1,
            )[j] == b.drop_first().subrange(0, i - 1)[j] by {
                assert(a.subrange(0, i)[j + 1] == b.subrange(0, i)[j + 1]);
                assert(a.drop_first().subrange(0, i - 1)[j] == a[j + 1]);
                assert(b.drop_first().subrange(0, i - 1)[j] == b[j + 1]);
                assert(a.subrange(0, i)[j + 1] == a[j + 1]);
                assert(b.subrange(0, i)[j + 1] == b[j + 1]);
            }
        }
        lemma_str_le_skip(a.drop_first(), b.drop_first(), i - 1);
        assert(a.drop_first().skip(i - 1) =~= a.skip(i));
        assert(b.drop_first().skip(i - 1) =~= b.skip(i));
    } else {
        assert(a.skip(0) =~= a);
        assert(b.skip(0) =~= b);
    }
}

/// Decides `str_le` on two string slices.
pub fn str_le_exec(a: &str, b: &str) -> (r: bool)
    ensures
        r == str_le(a@, b@),
{
    let alen: usize = a.unicode_len();
    let blen: usize = b.unicode_len();
    let mut i: usize = 0;
    loop
        invariant
            0 <= i <= alen,
            i <= blen,
            alen == a@.len(),
            blen == b@.len(),
            a@.subrange(0, i as int) == b@.subrange(0, i as int),
        decreases alen - i,
    {
        proof {
            lemma_str_le_skip(a@, b@, i as int);
        }
        if i >= alen {
            proof {
                assert(a@.skip(i as int).len() == 0);
            }
            return true;
        }
        if i >= blen {
            proof {
                assert(b@.skip(i as int).len() == 0);
                assert(a@.skip(i as int).len() > 0);
            }
            return false;
        }
        let ca = a.get_char(i);
        let cb = b.get_char(i);
        proof {
            assert(a@.skip(i as int)[0] == a@[i as int]);
            assert(b@.skip(i as int)[0] == b@[i as int]);
        }
        if ca != cb {
            return (ca as u32) < (cb as u32);
        }
        proof {
            assert(a@.subrange(0, i + 1) =~= b@.subrange(0, i + 1)) by {
                assert forall|j: int| 0 <= j < i + 1 implies #[trigger] a@.subrange(0, i + 1)[j]
                    == b@.subrange(0, i + 1)[j] by {
                    if j < i {
                        assert(a@.subrange(0, i as int)[j] == b@.subrange(0, i as int)[j]);
                    }
                }
            }
        }
        i = i + 1;
    }
}

// ---------------------------------------------------------------------------
// Substring containment, the heart of search matching.
// ---------------------------------------------------------------------------

/// `n` occurs as a contiguous run of characters inside `h`.
pub open spec fn contains_sub(h: Seq<char>, n: Seq<char>) -> bool {
    exists|i: int| 0 <= i && i + n.len() <= h.len() && #[trigger] h.subrange(i, i + n.len()) == n
}

/// Whether `n` occurs in `h` starting at position `i`.
fn matches_at(h: &str, n: &str, i: usize, hlen: usize, nlen: usize) -> (r: bool)
    requires
        hlen == h@.len(),
        nlen == n@.len(),
        i + nlen <= hlen,
    ensures
        r == (h@.subrange(i as int, i + nlen) == n@),
{
    let mut j: usize = 0;
    loop
        invariant
            0 <= j <= nlen,
            hlen == h@.len(),
            nlen == n@.len(),
            i + nlen <= hlen,
            h@.subrange(i as int, i + j) == n@.subrange(0, j as int),
        decreases nlen - j,
    {
        if j >= nlen {
            proof {
                assert(n@.subrange(0, nlen as int) =~= n@);
            }
            return true;
        }
        let ch = h.get_char(i + j);
        let cn = n.get_char(j);
        if ch != cn {
            proof {
                assert(h@.subrange(i as int, i + nlen)[j as int] == h@[i + j]);
            }
            return false;
        }
        proof {
            assert(h@.subrange(i as int, i + j + 1) =~= n@.subrange(0, j + 1)) by {
                assert forall|k: int| 0 <= k < j + 1 implies #[trigger] h@.subrange(
                    i as int,
                    i + j + 1,
                )[k] == n@.subrange(0, j + 1)[k] by {
                    if k < j {
                        assert(h@.subrange(i as int, i + j as int)[k] == n@.subrange(
                            0,
                            j as int,
                        )[k]);
                    }
                }
            }
        }
        j = j + 1;
    }
}

/// Decides whether `needle` occurs as a substring of `hay`.
pub fn contains_sub_exec(hay: &str, needle: &str) -> (r: bool)
    ensures
        r == contains_sub(hay@, needle@),
{
    let hlen: usize = hay.unicode_len();
    let nlen: usize = needle.unicode_len();
    if nlen > hlen {
        return false;
    }
    if nlen == 0 {
        proof {
            assert(contains_sub(hay@, needle@)) by {
                assert(hay@.subrange(0, 0 + needle@.len() as int) =~= needle@);
            }
        }
        return true;
    }
    let mut i: usize = 0;
    loop
        invariant
            0 <= i <= hlen - nlen + 1,
            hlen == hay@.len(),
            nlen == needle@.len(),
            0 < nlen <= hlen,
            forall|k: int|
                0 <= k < i ==> #[trigger] hay@.subrange(k, k + nlen as int) != needle@,
        decreases hlen - nlen + 1 - i,
    {
        if i > hlen - nlen {
            return false;
        }
        if matches_at(hay, needle, i, hlen, nlen) {
            proof {
                assert(contains_sub(hay@, needle@)) by {
                    assert(hay@.subrange(i as int, i as int + needle@.len() as int) == needle@);
                }
            }
            return true;
        }
        i = i + 1;
    }
}

// ---------------------------------------------------------------------------
// ASCII case mapping, with exact specifications.
// ---------------------------------------------------------------------------

pub open spec fn lower_char(c: char) -> char {
    if 'A' <= c && c <= 'Z' {
        ((c as u8) + 32) as char
    } else {
        c
    }
}

pub open spec fn upper_char(c: char) -> char {
    if 'a' <= c && c <= 'z' {
        ((c as u8) - 32) as char
    } else {
        c
    }
}

pub fn lower_char_exec(c: char) -> (r: char)
    ensures
        r == lower_char(c),
{
    if 'A' <= c && c <= 'Z' {
        ((c as u8) + 32) as char
    } else {
        c
    }
}

pub fn upper_char_exec(c: char) -> (r: char)
    ensures
        r == upper_char(c),
{
    if 'a' <= c && c <= 'z' {
        ((c as u8) - 32) as char
    } else {
        c
    }
}

/// Every character mapped through `lower_char`.
pub open spec fn lower_seq(s: Seq<char>) -> Seq<char> {
    Seq::new(s.len(), |i: int| lower_char(s[i]))
}

/// Appends one character to a string.
/// Relies on String::push: appends the given char to the end of this String.
#[verifier::external_body]
pub fn push_char(s: &mut String, c: char)
    ensures
        final(s)@ == old(s)@.push(c),
{
    s.push(c);
}

/// Maps a string through `lower_char`, character by character.
pub fn lower_seq_exec(s: &str) -> (r: String)
    ensures
        r@ == lower_seq(s@),
{
    let len: usize = s.unicode_len();
    let mut r = String::new();
    let mut i: usize = 0;
    while i < len
        invariant
            0 <= i <= len,
            len == s@.len(),
            r@ == lower_seq(s@).subrange(0, i as int),
        decreases len - i,
    {
        let c = lower_char_exec(s.get_char(i));
        push_char(&mut r, c);
        proof {
            assert(r@ =~= lower_seq(s@).subrange(0, i + 1));
        }
        i = i + 1;
    }
    proof {
        assert(lower_seq(s@).subrange(0, len as int) =~= lower_seq(s@));
    }
    r
}

/// Removes the last character, if any.
/// Relies on String::pop: removes the last character from the string and
/// returns it, or returns nothing when the string is empty.
#[verifier::external_body]
pub fn pop_char(s: &mut String) -> (r: Option<char>)
    ensures
        old(s)@.len() == 0 ==> final(s)@ == old(s)@ && r is None,
        old(s)@.len() > 0 ==> final(s)@ == old(s)@.drop_last() && r == Some(old(s)@.last()),
{
    s.pop()
}

// ---------------------------------------------------------------------------
// Unicode lowercasing for search matching. The full case-folding table is
// not restated here; the result is only given a name.
// ---------------------------------------------------------------------------

pub uninterp spec fn lower_of(s: Seq<char>) -> Seq<char>;

/// Relies on str::to_lowercase: the result depends on the characters of the
/// input alone.
#[verifier::external_body]
pub fn to_lowercase(s: &str) -> (r: String)
    ensures
        r@ == lower_of(s@),
{
    s.to_lowercase()
}

// ---------------------------------------------------------------------------
// Whitespace trimming and simple scanning.
// ---------------------------------------------------------------------------

/// The whitespace characters that the configuration format treats as
/// separators inside a line.
pub open spec fn is_space(c: char) -> bool {
    c == ' ' || c == '\t' || c == '\r'
}

pub fn is_space_exec(c: char) -> (r: bool)
    ensures
        r == is_space(c),
{
    c == ' ' || c == '\t' || c == '\r'
}

pub open spec fn trim_front(s: Seq<char>) -> Seq<char>
    decreases s.len(),
{
    if s.len() > 0 && is_space(s[0]) {
        trim_front(s.drop_first())
    } else {
        s
    }
}

pub open spec fn trim_back(s: Seq<char>) -> Seq<char>
    decreases s.len(),
{
    if s.len() > 0 && is_space(s.last()) {
        trim_back(s.drop_last())
    } else {
        s
    }
}

/// The string with leading and trailing whitespace removed.
pub open spec fn trim(s: Seq<char>) -> Seq<char> {
    trim_back(trim_front(s))
}

pub proof fn lemma_trim_front_skip(s: Seq<char>, i: int)
    requires
        0 <= i <= s.len(),
        forall|j: int| 0 <= j < i ==> is_space(s[j]),
    ensures
        trim_front(s) == trim_front(s.skip(i)),
    decreases i,
{
    if i > 0 {
        assert(is_space(s[0]));
        assert(s.drop_first() =~= s.skip(1));
        lemma_trim_front_skip(s.drop_first(), i - 1);
        assert(s.drop_first().skip(i - 1) =~= s.skip(i));
    } else {
        assert(s.skip(0) =~= s);
    }
}

pub proof fn lemma_trim_front_id(s: Seq<char>)
    requires
        s.len() == 0 || !is_space(s[0]),
    ensures
        trim_front(s) == s,
{
}

pub proof fn lemma_trim_back_take(s: Seq<char>, i: int)
    requires
        0 <= i <= s.len(),
        forall|j: int| i <= j < s.len() ==> is_space(s[j]),
    ensures
        trim_back(s) == trim_back(s.take(i)),
    decreases s.len() - i,
{
    if i < s.len() {
        assert(is_space(s.last()));
        assert(s.drop_last() =~= s.take(s.len() - 1));
        lemma_trim_back_take(s.drop_last(), i);
        assert(s.drop_last().take(i) =~= s.take(i));
    } else {
        assert(s.take(i) =~= s);
    }
}

pub proof fn lemma_trim_back_id(s: Seq<char>)
    requires
        s.len() == 0 || !is_space(s.last()),
    ensures
        trim_back(s) == s,
{
}

/// Removes leading and trailing whitespace.
pub fn trim_exec(s: &str) -> (r: &str)
    ensures
        r@ == trim(s@),
{
    let len: usize = s.unicode_len();
    let mut start: usize = 0;
    while start < len && is_space_exec(s.get_char(start))
        invariant
            0 <= start <= len,
            len == s@.len(),
            forall|j: int| 0 <= j < start ==> is_space(s@[j]),
        decreases len - start,
    {
        start = start + 1;
    }
    let mut end: usize = len;
    while end > start && is_space_exec(s.get_char(end - 1))
        invariant
            start <= end <= len,
            len == s@.len(),
            forall|j: int| 0 <= j < start ==> is_space(s@[j]),
            forall|j: int| end <= j < len ==> is_space(s@[j]),
        decreases end,
    {
        end = end - 1;
    }
    let r = s.substring_char(start, end);
    proof {
        lemma_trim_front_skip(s@, start as int);
        let t = s@.skip(start as int);
        if start < len {
            assert(!is_space(s@[start as int]));
            assert(t[0] == s@[start as int]);
        }
        lemma_trim_front_id(t);
        lemma_trim_back_take(t, end - start);
        if end > start {
            assert(t.take(end - start).last() == s@[end - 1]);
        }
        lemma_trim_back_id(t.take(end - start));
        assert(t.take(end - start) =~= s@.subrange(start as int, end as int));
    }
    r
}

/// Index of the first occurrence of `c` in `s`, or -1 if absent.
pub open spec fn find_char(s: Seq<char>, c: char) -> int
    decreases s.len(),
{
    if s.len() == 0 {
        -1
    } else if s[0] == c {
        0
    } else {
        let r = find_char(s.drop_first(), c);
        if r < 0 {
            -1
        } else {
            r + 1
        }
    }
}

pub proof fn lemma_find_char_props(s: Seq<char>, c: char)
    ensures
        find_char(s, c) >= 0 ==> find_char(s, c) < s.len() && s[find_char(s, c)] == c && forall|
            j: int,
        | 0 <= j < find_char(s, c) ==> s[j] != c,
        find_char(s, c) < 0 ==> forall|j: int| 0 <= j < s.len() ==> s[j] != c,
    decreases s.len(),
{
    if s.len() > 0 && s[0] != c {
        lemma_find_char_props(s.drop_first(), c);
        let r = find_char(s.drop_first(), c);
        if r >= 0 {
            assert(s[r + 1] == s.drop_first()[r]);
            assert forall|j: int| 0 <= j < r + 1 implies s[j] != c by {
                if j > 0 {
                    assert(s.drop_first()[j - 1] != c);
                    assert(s.drop_first()[j - 1] == s[j]);
                }
            }
        } else {
            assert forall|j: int| 0 <= j < s.len() implies s[j] != c by {
                if j > 0 {
                    assert(s.drop_first()[j - 1] != c);
                    assert(s.drop_first()[j - 1] == s[j]);
                }
            }
        }
    }
}

proof fn lemma_find_char_prefix(s: Seq<char>, c: char, i: int)
    requires
        0 <= i <= s.len(),
        forall|j: int| 0 <= j < i ==> s[j] != c,
    ensures
        find_char(s, c) == if find_char(s.skip(i), c) < 0 {
            -1
        } else {
            find_char(s.skip(i), c) + i
        },
    decreases i,
{
    if i > 0 {
        assert(s[0] != c);
        lemma_find_char_prefix(s.drop_first(), c, i - 1);
        assert(s.drop_first().skip(i - 1) =~= s.skip(i));
    } else {
        assert(s.skip(0) =~= s);
    }
}

/// Finds the first occurrence of `c`, if any.
pub fn find_char_exec(s: &str, c: char) -> (r: Option<usize>)
    ensures
        match r {
            Some(i) => find_char(s@, c) == i,
            None => find_char(s@, c) == -1,
        },
{
    let len: usize = s.unicode_len();
    let mut i: usize = 0;
    while i < len
        invariant
            0 <= i <= len,
            len == s@.len(),
            forall|j: int| 0 <= j < i ==> s@[j] != c,
        decreases len - i,
    {
        if s.get_char(i) == c {
            proof {
                lemma_find_char_prefix(s@, c, i as int);
                assert(s@.skip(i as int)[0] == c);
            }
            return Some(i);
        }
        i = i + 1;
    }
    proof {
        lemma_find_char_prefix(s@, c, len as int);
        assert(s@.skip(len as int).len() == 0);
    }
    None
}

/// Index of the first whitespace character in `s`, or -1 if none.
pub open spec fn find_space(s: Seq<char>) -> int
    decreases s.len(),
{
    if s.len() == 0 {
        -1
    } else if is_space(s[0]) {
        0
    } else {
        let r = find_space(s.drop_first());
        if r < 0 {
            -1
        } else {
            r + 1
        }
    }
}

proof fn lemma_find_space_prefix(s: Seq<char>, i: int)
    requires
        0 <= i <= s.len(),
        forall|j: int| 0 <= j < i ==> !is_space(s[j]),
    ensures
        find_space(s) == if find_space(s.skip(i)) < 0 {
            -1
        } else {
            find_space(s.skip(i)) + i
        },
    decreases i,
{
    if i > 0 {
        assert(!is_space(s[0]));
        lemma_find_space_prefix(s.drop_first(), i - 1);
        assert(s.drop_first().skip(i - 1) =~= s.skip(i));
    } else {
        assert(s.skip(0) =~= s);
    }
}

pub proof fn lemma_find_space_props(s: Seq<char>)
    ensures
        find_space(s) >= 0 ==> find_space(s) < s.len() && is_space(s[find_space(s)]) && forall|
            j: int,
        | 0 <= j < find_space(s) ==> !is_space(s[j]),
        find_space(s) < 0 ==> forall|j: int| 0 <= j < s.len() ==> !is_space(s[j]),
    decreases s.len(),
{
    if s.len() > 0 && !is_space(s[0]) {
        lemma_find_space_props(s.drop_first());
        let r = find_space(s.drop_first());
        if r >= 0 {
            assert(s[r + 1] == s.drop_first()[r]);
            assert forall|j: int| 0 <= j < r + 1 implies !is_space(s[j]) by {
                if j > 0 {
                    assert(!is_space(s.drop_first()[j - 1]));
                    assert(s.drop_first()[j - 1] == s[j]);
                }
            }
        } else {
            assert forall|j: int| 0 <= j < s.len() implies !is_space(s[j]) by {
                if j > 0 {
                    assert(!is_space(s.drop_first()[j - 1]));
                    assert(s.drop_first()[j - 1] == s[j]);
                }
            }
        }
    }
}

/// Finds the first whitespace character, if any.
pub fn find_space_exec(s: &str) -> (r: Option<usize>)
    ensures
        match r {
            Some(i) => find_space(s@) == i,
            None => find_space(s@) == -1,
        },
{
    let len: usize = s.unicode_len();
    let mut i: usize = 0;
    while i < len
        invariant
            0 <= i <= len,
            len == s@.len(),
            forall|j: int| 0 <= j < i ==> !is_space(s@[j]),
        decreases len - i,
    {
        if is_space_exec(s.get_char(i)) {
            proof {
                lemma_find_space_prefix(s@, i as int);
                assert(is_space(s@.skip(i as int)[0]));
            }
            return Some(i);
        }
        i = i + 1;
    }
    proof {
        lemma_find_space_prefix(s@, len as int);
        assert(s@.skip(len as int).len() == 0);
    }
    None
}

/// Compares two strings for equality of their character sequences.
pub fn str_eq(a: &str, b: &str) -> (r: bool)
    ensures
        r == (a@ == b@),
{
    let alen: usize = a.unicode_len();
    let blen: usize = b.unicode_len();
    if alen != blen {
        return false;
    }
    let mut i: usize = 0;
    while i < alen
        invariant
            0 <= i <= alen,
            alen == a@.len(),
            alen == b@.len(),
            forall|j: int| 0 <= j < i ==> a@[j] == b@[j],
        decreases alen - i,
    {
        if a.get_char(i) != b.get_char(i) {
            return false;
        }
        i = i + 1;
    }
    proof {
        assert(a@ =~= b@);
    }
    true
}

/// A non-empty string without leading or trailing whitespace is its own
/// trim.
pub proof fn lemma_trim_id(s: Seq<char>)
    requires
        s.len() == 0 || (!is_space(s[0]) && !is_space(s.last())),
    ensures
        trim(s) == s,
{
    lemma_trim_front_id(s);
    lemma_trim_back_id(s);
}

/// Pins the first occurrence of `c` to position `i`.
pub proof fn lemma_find_char_at(s: Seq<char>, c: char, i: int)
    requires
        0 <= i < s.len(),
        s[i] == c,
        forall|j: int| 0 <= j < i ==> s[j] != c,
    ensures
        find_char(s, c) == i,
{
    lemma_find_char_props(s, c);
    let r = find_char(s, c);
    if r < 0 {
        assert(s[i] != c);
    } else if r < i {
        assert(s[r] != c);
    } else if r > i {
        assert(s[i] != c);
    }
}

/// Pins the first whitespace to position `i`.
pub proof fn lemma_find_space_at(s: Seq<char>, i: int)
    requires
        0 <= i < s.len(),
        is_space(s[i]),
        forall|j: int| 0 <= j < i ==> !is_space(s[j]),
    ensures
        find_space(s) == i,
{
    lemma_find_space_props(s);
    let r = find_space(s);
    if r < 0 {
        assert(!is_space(s[i]));
    } else if r < i {
        assert(!is_space(s[r]));
    } else if r > i {
        assert(!is_space(s[i]));
    }
}

/// A string without whitespace has no first whitespace.
pub proof fn lemma_find_space_none(s: Seq<char>)
    requires
        forall|j: int| 0 <= j < s.len() ==> !is_space(#[trigger] s[j]),
    ensures
        find_space(s) < 0,
{
    lemma_find_space_props(s);
    if find_space(s) >= 0 {
        assert(!is_space(s[find_space(s)]));
    }
}

proof fn lemma_trim_front_len(s: Seq<char>)
    ensures
        trim_front(s).len() <= s.len(),
        s.len() > 0 && is_space(s[0]) ==> trim_front(s).len() < s.len(),
    decreases s.len(),
{
    if s.len() > 0 && is_space(s[0]) {
        lemma_trim_front_len(s.drop_first());
    }
}

proof fn lemma_trim_back_len(s: Seq<char>)
    ensures
        trim_back(s).len() <= s.len(),
        s.len() > 0 && is_space(s.last()) ==> trim_back(s).len() < s.len(),
    decreases s.len(),
{
    if s.len() > 0 && is_space(s.last()) {
        lemma_trim_back_len(s.drop_last());
    }
}

/// A non-empty string equal to its own trim neither starts nor ends with
/// whitespace.
pub proof fn lemma_clean_ends(s: Seq<char>)
    requires
        trim(s) == s,
        s.len() > 0,
    ensures
        !is_space(s[0]),
        !is_space(s.last()),
{
    lemma_trim_front_len(s);
    lemma_trim_back_len(trim_front(s));
    if is_space(s[0]) {
        assert(trim(s).len() < s.len());
    }
    if !is_space(s[0]) && is_space(s.last()) {
        lemma_trim_front_id(s);
        assert(trim(s).len() < s.len());
    }
}

} // verus!
