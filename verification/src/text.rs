//! Small verified helpers for working with strings as sequences of
//! characters: indexing, equality, concatenation, substring search and
//! decimal formatting.

use vstd::prelude::*;
use vstd::string::StrSliceExecFns;

verus! {

/// Collects the characters of a string slice into a vector.
pub fn to_chars(s: &str) -> (r: Vec<char>)
    ensures
        r@ == s@,
{
    let n = s.unicode_len();
    let mut v: Vec<char> = Vec::new();
    let mut i: usize = 0;
    while i < n
        invariant
            i <= n,
            n == s@.len(),
            v@ == s@.subrange(0, i as int),
        decreases n - i,
    {
        v.push(s.get_char(i));
        proof {
            assert(v@ =~= s@.subrange(0, i + 1 as int));
        }
        i += 1;
    }
    proof {
        assert(v@ =~= s@);
    }
    v
}

/// Character-by-character string equality.
pub fn str_eq(a: &str, b: &str) -> (r: bool)
    ensures
        r == (a@ == b@),
{
    let na = a.unicode_len();
    let nb = b.unicode_len();
    if na != nb {
        return false;
    }
    let mut i: usize = 0;
    while i < na
        invariant
            i <= na,
            na == a@.len(),
            na == b@.len(),
            forall|j: int| 0 <= j < i ==> a@[j] == b@[j],
        decreases na - i,
    {
        if a.get_char(i) != b.get_char(i) {
            return false;
        }
        i += 1;
    }
    proof {
        assert(a@ =~= b@);
    }
    true
}

/// Relies on `String::push`: appends one character to the string.
#[verifier::external_body]
pub(crate) fn push_char(s: &mut String, c: char)
    ensures
        final(s)@ == old(s)@.push(c),
{
    s.push(c);
}

/// Builds a string out of a vector of characters.
pub fn chars_to_string(v: &Vec<char>) -> (r: String)
    ensures
        r@ == v@,
{
    let mut s = String::new();
    let mut i: usize = 0;
    while i < v.len()
        invariant
            i <= v@.len(),
            s@ == v@.subrange(0, i as int),
        decreases v@.len() - i,
    {
        push_char(&mut s, v[i]);
        proof {
            assert(s@ =~= v@.subrange(0, i + 1 as int));
        }
        i += 1;
    }
    proof {
        assert(s@ =~= v@);
    }
    s
}

/// The pattern occurs in the text at position `i`.
pub open spec fn occurs_at(text: Seq<char>, pat: Seq<char>, i: int) -> bool {
    &&& 0 <= i
    &&& i + pat.len() <= text.len()
    &&& text.subrange(i, i + pat.len() as int) == pat
}

/// The pattern occurs at position `i` and the occurrence stays inside one
/// path component: no separator lies under it.
pub open spec fn component_occurs_at(text: Seq<char>, pat: Seq<char>, i: int) -> bool {
    &&& occurs_at(text, pat, i)
    &&& forall|j: int| i <= j < i + pat.len() ==> text[j] != '/'
}

/// Some path component of `text` contains `pat` as a substring.
pub open spec fn component_contains(text: Seq<char>, pat: Seq<char>) -> bool {
    exists|i: int| component_occurs_at(text, pat, i)
}

fn component_match_at(text: &Vec<char>, pat: &Vec<char>, i: usize) -> (r: bool)
    requires
        i + pat@.len() <= text@.len(),
    ensures
        r == component_occurs_at(text@, pat@, i as int),
{
    let mut j: usize = 0;
    let m = pat.len();
    let n = text.len();
    while j < m
        invariant
            j <= m,
            m == pat@.len(),
            n == text@.len(),
            i + m <= n,
            forall|k: int| 0 <= k < j ==> text@[i + k] == pat@[k],
            forall|k: int| i <= k < i + j ==> #[trigger] text@[k] != '/',
        decreases m - j,
    {
        let c = text[i + j];
        if c != pat[j] || c == '/' {
            return false;
        }
        proof {
            assert(text@[i + j] != '/');
        }
        j += 1;
    }
    proof {
        assert(text@.subrange(i as int, i + pat@.len() as int) =~= pat@);
    }
    true
}

/// Decides whether some path component of `text` contains `pat`.
pub fn component_contains_exec(text: &Vec<char>, pat: &Vec<char>) -> (r: bool)
    ensures
        r == component_contains(text@, pat@),
{
    if pat.len() > text.len() {
        return false;
    }
    if pat.len() == 0 {
        proof {
            assert(component_occurs_at(text@, pat@, 0)) by {
                assert(text@.subrange(0, 0) =~= pat@);
            };
        }
        return true;
    }
    let bound = text.len() - pat.len();
    let mut i: usize = 0;
    loop
        invariant
            i <= bound + 1,
            bound <= usize::MAX - 1,
            bound == text@.len() - pat@.len(),
            0 < pat@.len() <= text@.len(),
            forall|k: int| 0 <= k < i ==> !component_occurs_at(text@, pat@, k),
        decreases bound + 1 - i,
    {
        if i > bound {
            return false;
        }
        if component_match_at(text, pat, i) {
            return true;
        }
        i += 1;
    }
}

/// `comp` stands as one whole path component of `text`: it occurs with a
/// separator or an end of the string on both sides and holds no separator
/// itself.
pub open spec fn has_component(text: Seq<char>, comp: Seq<char>) -> bool {
    exists|i: int|
        #![trigger text.subrange(i, i + comp.len() as int)]
        0 <= i && i + comp.len() <= text.len() && text.subrange(i, i + comp.len() as int) == comp
            && (i == 0 || text[i - 1] == '/') && (i + comp.len() == text.len() || text[i
            + comp.len()] == '/')
}

/// A well-formed relative path: non-empty, forward slashes only, no leading
/// slash, and no `..` component, so it cannot escape its root.
pub open spec fn wf_rel_path(s: Seq<char>) -> bool {
    &&& s.len() > 0
    &&& s[0] != '/'
    &&& forall|i: int| 0 <= i < s.len() ==> s[i] != '\\'
    &&& !has_component(s, ".."@)
}

spec fn dotdot_at(s: Seq<char>, i: int) -> bool {
    &&& 0 <= i
    &&& i + 2 <= s.len()
    &&& s[i] == '.'
    &&& s[i + 1] == '.'
    &&& (i == 0 || s[i - 1] == '/')
    &&& (i + 2 == s.len() || s[i + 2] == '/')
}

proof fn lemma_dotdot_component(s: Seq<char>)
    ensures
        has_component(s, ".."@) <==> exists|i: int| #[trigger] dotdot_at(s, i),
{
    reveal_strlit("..");
    if has_component(s, ".."@) {
        let i = choose|i: int|
            #![trigger s.subrange(i, i + 2)]
            0 <= i && i + 2 <= s.len() && s.subrange(i, i + 2) == ".."@ && (i == 0 || s[i - 1]
                == '/') && (i + 2 == s.len() || s[i + 2] == '/');
        assert(s.subrange(i, i + 2)[0] == s[i]);
        assert(s.subrange(i, i + 2)[1] == s[i + 1]);
        assert(dotdot_at(s, i));
    }
    if exists|i: int| #[trigger] dotdot_at(s, i) {
        let i = choose|i: int| #[trigger] dotdot_at(s, i);
        assert(s.subrange(i, i + 2) =~= ".."@);
        assert(has_component(s, ".."@));
    }
}

/// Decides whether a string is a well-formed relative path.
pub fn is_wf_rel_path(path: &str) -> (r: bool)
    ensures
        r == wf_rel_path(path@),
{
    proof {
        lemma_dotdot_component(path@);
    }
    let chars = to_chars(path);
    let n = chars.len();
    if n == 0 {
        return false;
    }
    if chars[0] == '/' {
        return false;
    }
    let mut i: usize = 0;
    while i < n
        invariant
            i <= n,
            n == chars@.len(),
            chars@ == path@,
            forall|j: int| 0 <= j < i ==> path@[j] != '\\',
        decreases n - i,
    {
        if chars[i] == '\\' {
            return false;
        }
        i += 1;
    }
    if n >= 2 {
        let mut a: usize = 0;
        while a <= n - 2
            invariant
                2 <= n,
                a <= n - 1,
                n == chars@.len(),
                chars@ == path@,
                forall|j: int| 0 <= j < a ==> !dotdot_at(path@, j),
            decreases n - a,
        {
            if chars[a] == '.' && chars[a + 1] == '.' && (a == 0 || chars[a - 1] == '/') && (a + 2
                == n || chars[a + 2] == '/') {
                proof {
                    assert(dotdot_at(path@, a as int));
                    lemma_dotdot_component(path@);
                }
                return false;
            }
            a += 1;
        }
        proof {
            assert forall|j: int| !(#[trigger] dotdot_at(path@, j)) by {
                if dotdot_at(path@, j) {
                    assert(0 <= j < a);
                }
            }
        }
    } else {
        proof {
            assert forall|j: int| !(#[trigger] dotdot_at(path@, j)) by {}
        }
    }
    proof {
        lemma_dotdot_component(path@);
    }
    true
}

/// Replaces every backslash with a forward slash, as path normalization
/// does when a host writes paths with backslash separators.
pub open spec fn normalize_separators_spec(s: Seq<char>) -> Seq<char> {
    s.map_values(|c: char| if c == '\\' { '/' } else { c })
}

/// Normalizes a path string to forward slashes.
pub fn normalize_separators(s: &str) -> (r: String)
    ensures
        r@ == normalize_separators_spec(s@),
{
    let chars = to_chars(s);
    let mut out: Vec<char> = Vec::new();
    let mut i: usize = 0;
    while i < chars.len()
        invariant
            i <= chars@.len(),
            chars@ == s@,
            out@ == normalize_separators_spec(s@.subrange(0, i as int)),
        decreases chars@.len() - i,
    {
        let c = chars[i];
        if c == '\\' {
            out.push('/');
        } else {
            out.push(c);
        }
        proof {
            assert(out@ =~= normalize_separators_spec(s@.subrange(0, i + 1 as int)));
        }
        i += 1;
    }
    proof {
        assert(s@.subrange(0, s@.len() as int) =~= s@);
    }
    chars_to_string(&out)
}

/// The decimal digit `d` as a character.
pub open spec fn dec_digit(d: int) -> char {
    if d == 0 { '0' }
    else if d == 1 { '1' }
    else if d == 2 { '2' }
    else if d == 3 { '3' }
    else if d == 4 { '4' }
    else if d == 5 { '5' }
    else if d == 6 { '6' }
    else if d == 7 { '7' }
    else if d == 8 { '8' }
    else { '9' }
}

/// The decimal representation of `n`, most significant digit first.
pub open spec fn dec_str(n: nat) -> Seq<char>
    decreases n,
{
    if n < 10 {
        seq![dec_digit(n as int)]
    } else {
        dec_str(n / 10).push(dec_digit((n % 10) as int))
    }
}

pub(crate) fn digit_char(d: u64) -> (r: char)
    requires
        d < 10,
    ensures
        r == dec_digit(d as int),
{
    if d == 0 { '0' }
    else if d == 1 { '1' }
    else if d == 2 { '2' }
    else if d == 3 { '3' }
    else if d == 4 { '4' }
    else if d == 5 { '5' }
    else if d == 6 { '6' }
    else if d == 7 { '7' }
    else if d == 8 { '8' }
    else { '9' }
}

/// The hexadecimal digit `d` as a lowercase character.
pub open spec fn hex_digit(d: int) -> char {
    if d < 10 {
        dec_digit(d)
    } else if d == 10 { 'a' }
    else if d == 11 { 'b' }
    else if d == 12 { 'c' }
    else if d == 13 { 'd' }
    else if d == 14 { 'e' }
    else { 'f' }
}

/// The lowercase hexadecimal encoding of a byte string, two digits per byte.
pub open spec fn lower_hex(bytes: Seq<u8>) -> Seq<char>
    decreases bytes.len(),
{
    if bytes.len() == 0 {
        Seq::empty()
    } else {
        lower_hex(bytes.drop_last()) + seq![
            hex_digit((bytes.last() / 16) as int),
            hex_digit((bytes.last() % 16) as int),
        ]
    }
}

fn hex_digit_char(d: u8) -> (r: char)
    requires
        d < 16,
    ensures
        r == hex_digit(d as int),
{
    if d < 10 {
        digit_char(d as u64)
    } else if d == 10 { 'a' }
    else if d == 11 { 'b' }
    else if d == 12 { 'c' }
    else if d == 13 { 'd' }
    else if d == 14 { 'e' }
    else { 'f' }
}

/// Encodes bytes as lowercase hexadecimal characters.
pub fn to_lower_hex(bytes: &[u8]) -> (r: Vec<char>)
    ensures
        r@ == lower_hex(bytes@),
{
    let mut out: Vec<char> = Vec::new();
    let mut i: usize = 0;
    while i < bytes.len()
        invariant
            i <= bytes@.len(),
            out@ == lower_hex(bytes@.subrange(0, i as int)),
        decreases bytes@.len() - i,
    {
        let b = bytes[i];
        out.push(hex_digit_char(b / 16));
        out.push(hex_digit_char(b % 16));
        proof {
            let pre = bytes@.subrange(0, i as int);
            let post = bytes@.subrange(0, i + 1 as int);
            assert(post.drop_last() =~= pre);
            assert(post.last() == bytes@[i as int]);
            assert(out@ =~= lower_hex(pre) + seq![
                hex_digit((bytes@[i as int] / 16) as int),
                hex_digit((bytes@[i as int] % 16) as int),
            ]);
        }
        i += 1;
    }
    proof {
        assert(bytes@.subrange(0, bytes@.len() as int) =~= bytes@);
    }
    out
}

/// The decimal digits of `n` as characters.
pub fn dec_chars(n: u64) -> (r: Vec<char>)
    ensures
        r@ == dec_str(n as nat),
    decreases n,
{
    if n < 10 {
        let mut v: Vec<char> = Vec::new();
        v.push(digit_char(n));
        proof {
            assert(v@ =~= dec_str(n as nat));
        }
        v
    } else {
        let mut v = dec_chars(n / 10);
        v.push(digit_char(n % 10));
        v
    }
}

} // verus!
