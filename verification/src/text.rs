//! Small operations on text that the rules are built from.

use vstd::prelude::*;
use vstd::string::*;

verus! {

/// Whether two string slices hold the same text.
pub fn str_equal(a: &str, b: &str) -> (r: bool)
    ensures
        r == (a@ == b@),
{
    let n = a.unicode_len();
    if n != b.unicode_len() {
        return false;
    }
    let mut i: usize = 0;
    while i < n
        invariant
            i <= n,
            n == a@.len(),
            n == b@.len(),
            forall|k: int| 0 <= k < i ==> a@[k] == b@[k],
        decreases n - i,
    {
        if a.get_char(i) != b.get_char(i) {
            return false;
        }
        i += 1;
    }
    assert(a@ =~= b@);
    true
}

/// Whether `"::"` stands at position `i` of `s`.
pub open spec fn separator_at(s: Seq<char>, i: int) -> bool {
    0 <= i && i + 1 < s.len() && s[i] == ':' && s[i + 1] == ':'
}

/// Whether `i` is the last position of `s` at which `"::"` stands.
pub open spec fn last_separator(s: Seq<char>, i: int) -> bool {
    separator_at(s, i) && forall|j: int| separator_at(s, j) ==> j <= i
}

/// The part of a path behind its last `"::"`, or the whole path where it has none.
pub open spec fn final_segment(s: Seq<char>) -> Seq<char> {
    if exists|i: int| separator_at(s, i) {
        let i = choose|i: int| last_separator(s, i);
        s.subrange(i + 2, s.len() as int)
    } else {
        s
    }
}

/// The last segment of a `::`-separated path.
pub fn last_segment<'a>(path: &'a str) -> (r: &'a str)
    ensures
        r@ == final_segment(path@),
{
    let n = path.unicode_len();
    if n < 2 {
        return path;
    }
    let mut i: usize = n - 1;
    while i > 0
        invariant
            i < n,
            n == path@.len(),
            forall|j: int| i <= j ==> !separator_at(path@, j),
        decreases i,
    {
        if path.get_char(i - 1) == ':' && path.get_char(i) == ':' {
            proof {
                let at = (i - 1) as int;
                assert(last_separator(path@, at));
                let chosen = choose|k: int| last_separator(path@, k);
                assert(separator_at(path@, chosen));
                assert(chosen == at);
            }
            return path.substring_char(i + 1, n);
        }
        i -= 1;
    }
    path
}

/// The upper-case form of an ASCII lower-case letter; any other character unchanged.
pub open spec fn ascii_upper(c: char) -> char {
    if 'a' <= c && c <= 'z' {
        ((c as u32) - 32) as char
    } else {
        c
    }
}

/// The lower-case form of an ASCII upper-case letter; any other character unchanged.
pub open spec fn ascii_lower(c: char) -> char {
    if 'A' <= c && c <= 'Z' {
        ((c as u32) + 32) as char
    } else {
        c
    }
}

/// Maps `a..=z` to `A..=Z` and leaves every other character as it is.
pub fn to_ascii_upper(c: char) -> (r: char)
    ensures
        r == ascii_upper(c),
{
    if 'a' <= c && c <= 'z' {
        ((c as u8) - 32) as char
    } else {
        c
    }
}

/// Maps `A..=Z` to `a..=z` and leaves every other character as it is.
pub fn to_ascii_lower(c: char) -> (r: char)
    ensures
        r == ascii_lower(c),
{
    if 'A' <= c && c <= 'Z' {
        ((c as u8) + 32) as char
    } else {
        c
    }
}

/// Whether a character has the Unicode property `Uppercase`.
pub uninterp spec fn has_uppercase_property(c: char) -> bool;

/// Whether a character counts as upper case: among the ASCII characters `A`
/// to `Z` and no other, beyond them the characters with the Unicode property
/// `Uppercase`.
pub open spec fn is_upper(c: char) -> bool {
    if c <= '\x7f' {
        'A' <= c && c <= 'Z'
    } else {
        has_uppercase_property(c)
    }
}

/// `char::is_uppercase`: tells whether the character has the Unicode
/// property `Uppercase`. The property is a table of the Unicode standard, so
/// the contract names it; of the ASCII characters the table holds `A` to `Z`
/// and no other, which the contract states.
#[verifier::external_body]
pub(crate) fn is_uppercase(c: char) -> (r: bool)
    ensures
        r == has_uppercase_property(c),
        c <= '\x7f' ==> r == ('A' <= c && c <= 'Z'),
{
    c.is_uppercase()
}

/// `String::push`: appends one character to the end of the string.
#[verifier::external_body]
pub(crate) fn push_char(s: &mut String, c: char)
    ensures
        final(s)@ == old(s)@.push(c),
{
    s.push(c)
}

/// How one text stands to another in the order of the dictionary.
#[derive(Debug, Clone, Copy, PartialEq, Eq, Structural)]
pub enum Rank {
    Before,
    Same,
    After,
}

/// Whether `a` stands before `b` in the order of the dictionary, character by
/// character and a prefix before what it is a prefix of.
pub open spec fn text_before(a: Seq<char>, b: Seq<char>) -> bool
    decreases a.len(),
{
    if b.len() == 0 {
        false
    } else if a.len() == 0 {
        true
    } else if a[0] != b[0] {
        a[0] < b[0]
    } else {
        text_before(a.drop_first(), b.drop_first())
    }
}

/// Two texts that agree on their first `i` characters stand to each other as
/// what follows those characters.
pub proof fn before_skips_common_prefix(a: Seq<char>, b: Seq<char>, i: int)
    requires
        0 <= i <= a.len(),
        i <= b.len(),
        forall|k: int| 0 <= k < i ==> a[k] == b[k],
    ensures
        text_before(a, b) == text_before(a.skip(i), b.skip(i)),
    decreases i,
{
    if i == 0 {
        assert(a.skip(0) == a);
        assert(b.skip(0) == b);
    } else {
        let x = a.drop_first();
        let y = b.drop_first();
        assert forall|k: int| 0 <= k < i - 1 implies x[k] == y[k] by {
            assert(x[k] == a[k + 1]);
            assert(y[k] == b[k + 1]);
        }
        before_skips_common_prefix(x, y, i - 1);
        assert(x.skip(i - 1) == a.skip(i));
        assert(y.skip(i - 1) == b.skip(i));
    }
}

/// Of two texts one stands before the other, or they are the same text.
pub proof fn before_is_total(a: Seq<char>, b: Seq<char>)
    ensures
        text_before(a, b) || text_before(b, a) || a == b,
        !(text_before(a, b) && text_before(b, a)),
        !text_before(a, a),
    decreases a.len(),
{
    if a.len() > 0 && b.len() > 0 && a[0] == b[0] {
        before_is_total(a.drop_first(), b.drop_first());
        if a.drop_first() == b.drop_first() {
            assert(a.len() == b.len()) by {
                assert(a.drop_first().len() == a.len() - 1);
                assert(b.drop_first().len() == b.len() - 1);
            }
            assert forall|k: int| 0 <= k < a.len() implies a[k] == b[k] by {
                if k > 0 {
                    assert(a[k] == a.drop_first()[k - 1]);
                    assert(b[k] == b.drop_first()[k - 1]);
                }
            }
            assert(a =~= b);
        }
    } else if a.len() == 0 && b.len() == 0 {
        assert(a =~= b);
    }
    if a.len() > 0 {
        before_is_total(a.drop_first(), a.drop_first());
    }
}

/// What stands before a text stands before everything behind that text.
pub proof fn before_is_transitive(a: Seq<char>, b: Seq<char>, c: Seq<char>)
    requires
        text_before(a, b),
        text_before(b, c),
    ensures
        text_before(a, c),
    decreases a.len(),
{
    if a.len() > 0 && a[0] == b[0] && b[0] == c[0] {
        before_is_transitive(a.drop_first(), b.drop_first(), c.drop_first());
    }
}

/// How `a` stands to `b` in the order of the dictionary.
pub fn rank(a: &str, b: &str) -> (r: Rank)
    ensures
        match r {
            Rank::Before => text_before(a@, b@),
            Rank::Same => a@ == b@,
            Rank::After => text_before(b@, a@),
        },
{
    let n = a.unicode_len();
    let m = b.unicode_len();
    let mut i: usize = 0;
    while i < n && i < m
        invariant
            i <= n,
            i <= m,
            n == a@.len(),
            m == b@.len(),
            forall|k: int| 0 <= k < i ==> a@[k] == b@[k],
        decreases n - i,
    {
        let x = a.get_char(i);
        let y = b.get_char(i);
        if x != y {
            proof {
                before_skips_common_prefix(a@, b@, i as int);
                before_skips_common_prefix(b@, a@, i as int);
                assert(a@.skip(i as int)[0] == x);
                assert(b@.skip(i as int)[0] == y);
            }
            return if x < y {
                Rank::Before
            } else {
                Rank::After
            };
        }
        i += 1;
    }
    proof {
        before_skips_common_prefix(a@, b@, i as int);
        before_skips_common_prefix(b@, a@, i as int);
        if n == m {
            assert(a@ =~= b@);
        }
    }
    if n == m {
        Rank::Same
    } else if n < m {
        Rank::Before
    } else {
        Rank::After
    }
}

} // verus!
