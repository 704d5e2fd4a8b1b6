//! Text helpers shared by the key, listing and configuration rules.
//!
//! Object keys are `/`-separated paths. The last segment of a key is the name
//! under which an object is shown; what stands before the last `/` is the
//! virtual folder that holds it.

use vstd::prelude::*;
use vstd::string::StrSliceExecFns;
use vstd::string::StringExecFns;

verus! {

/// The characters of `s`, in order.
pub fn chars_of(s: &str) -> (out: Vec<char>)
    ensures
        out@ == s@,
{
    let mut out: Vec<char> = Vec::new();
    for c in it: s.chars()
        invariant
            it.seq() == s@,
            out@ == s@.take(it.index() as int),
    {
        out.push(c);
    }
    out
}

/// Index of the last `c` in `s`, or -1 where there is none.
pub open spec fn last_index_of(s: Seq<char>, c: char) -> int
    decreases s.len(),
{
    if s.len() == 0 {
        -1
    } else if s.last() == c {
        s.len() - 1
    } else {
        last_index_of(s.drop_last(), c)
    }
}

/// Index of the last `/` in `s`, or -1 where there is none.
pub open spec fn last_slash(s: Seq<char>) -> int {
    last_index_of(s, '/')
}

/// Whether `s` holds a `/`.
pub open spec fn has_slash(s: Seq<char>) -> bool {
    last_slash(s) >= 0
}

/// What follows the last `/` of `s`; all of `s` where there is none.
pub open spec fn last_segment(s: Seq<char>) -> Seq<char> {
    s.skip(last_slash(s) + 1)
}

/// What stands before the last `/` of `s`; empty where there is none.
pub open spec fn parent(s: Seq<char>) -> Seq<char> {
    if has_slash(s) {
        s.take(last_slash(s))
    } else {
        Seq::empty()
    }
}

/// `last_index_of` is the one index that holds `c` with none after it.
pub proof fn lemma_last_index_of(s: Seq<char>, c: char)
    ensures
        -1 <= last_index_of(s, c) < s.len(),
        last_index_of(s, c) >= 0 ==> s[last_index_of(s, c)] == c,
        forall|i: int| last_index_of(s, c) < i < s.len() ==> s[i] != c,
    decreases s.len(),
{
    if s.len() > 0 && s.last() != c {
        lemma_last_index_of(s.drop_last(), c);
        assert forall|i: int| last_index_of(s, c) < i < s.len() implies s[i] != c by {
            if i < s.len() - 1 {
                assert(s.drop_last()[i] == s[i]);
            }
        }
    }
}

/// An index that holds `c` with none after it, or -1 where `s` holds none,
/// is `last_index_of`.
pub proof fn lemma_last_index_of_unique(s: Seq<char>, c: char, k: int)
    requires
        -1 <= k < s.len(),
        k >= 0 ==> s[k] == c,
        forall|i: int| k < i < s.len() ==> s[i] != c,
    ensures
        last_index_of(s, c) == k,
    decreases s.len(),
{
    if s.len() > 0 && k < s.len() - 1 {
        let t = s.drop_last();
        assert forall|i: int| k < i < t.len() implies t[i] != c by {
            assert(t[i] == s[i]);
        }
        if k >= 0 {
            assert(t[k] == s[k]);
        }
        lemma_last_index_of_unique(t, c, k);
    }
}

/// The last segment holds no `/`, and a segment without `/` appended to a
/// folder and a `/` is the last segment of the result.
pub proof fn lemma_last_segment_of_join(folder: Seq<char>, name: Seq<char>)
    requires
        forall|i: int| 0 <= i < name.len() ==> name[i] != '/',
    ensures
        last_segment(folder + seq!['/'] + name) == name,
        parent(folder + seq!['/'] + name) == folder,
        last_segment(name) == name,
        !has_slash(name),
{
    let whole = folder + seq!['/'] + name;
    lemma_last_index_of_unique(whole, '/', folder.len() as int);
    assert(whole.skip((folder.len() + 1) as int) =~= name);
    assert(whole.take(folder.len() as int) =~= folder);
    lemma_last_index_of_unique(name, '/', -1);
    assert(name.skip(0) =~= name);
}

/// Position of the last `c` among `chars`, if any.
pub fn find_last(chars: &Vec<char>, c: char) -> (r: Option<usize>)
    ensures
        match r {
            Some(k) => last_index_of(chars@, c) == k && k < chars@.len(),
            None => last_index_of(chars@, c) == -1,
        },
{
    let mut i: usize = chars.len();
    while i > 0
        invariant
            i <= chars@.len(),
            forall|j: int| i <= j < chars@.len() ==> chars@[j] != c,
        decreases i,
    {
        if chars[i - 1] == c {
            proof {
                lemma_last_index_of_unique(chars@, c, (i - 1) as int);
            }
            return Some(i - 1);
        }
        i -= 1;
    }
    proof {
        lemma_last_index_of_unique(chars@, c, -1);
    }
    None
}

/// The last `/`-segment of `key`: what follows its last `/`, or all of it.
pub fn last_segment_of(key: &str) -> (name: String)
    ensures
        name@ == last_segment(key@),
{
    let chars = chars_of(key);
    let n = chars.len();
    let start = match find_last(&chars, '/') {
        Some(k) => k + 1,
        None => 0,
    };
    String::from_str(key.substring_char(start, n))
}

/// Splits `key` at its last `/` into what stands before and what follows;
/// `None` where `key` holds no `/`.
pub fn split_last(key: &str) -> (r: Option<(String, String)>)
    ensures
        r is Some <==> has_slash(key@),
        r matches Some((head, tail)) ==> head@ == parent(key@) && tail@ == last_segment(key@),
{
    let chars = chars_of(key);
    let n = chars.len();
    match find_last(&chars, '/') {
        Some(k) => {
            let head = String::from_str(key.substring_char(0, k));
            let tail = String::from_str(key.substring_char(k + 1, n));
            assert(key@.subrange(0, k as int) =~= key@.take(k as int));
            Some((head, tail))
        },
        None => None,
    }
}

/// `s` without the `/` characters that end it.
pub open spec fn without_trailing_slashes(s: Seq<char>) -> Seq<char>
    decreases s.len(),
{
    if s.len() > 0 && s.last() == '/' {
        without_trailing_slashes(s.drop_last())
    } else {
        s
    }
}

/// `key` without the `/` characters that end it.
pub fn trim_trailing_slashes(key: &str) -> (out: String)
    ensures
        out@ == without_trailing_slashes(key@),
{
    let chars = chars_of(key);
    let mut end: usize = chars.len();
    proof {
        assert(chars@.take(end as int) =~= chars@);
    }
    while end > 0 && chars[end - 1] == '/'
        invariant
            end <= chars@.len(),
            without_trailing_slashes(chars@) == without_trailing_slashes(chars@.take(end as int)),
        decreases end,
    {
        proof {
            assert(chars@.take(end as int).drop_last() =~= chars@.take(end - 1));
        }
        end -= 1;
    }
    proof {
        assert(key@.subrange(0, end as int) =~= chars@.take(end as int));
    }
    String::from_str(key.substring_char(0, end))
}

/// Whether `key` ends with `/`.
pub fn ends_with_slash(key: &str) -> (b: bool)
    ensures
        b == (key@.len() > 0 && key@.last() == '/'),
{
    let chars = chars_of(key);
    chars.len() > 0 && chars[chars.len() - 1] == '/'
}

/// `folder`, a `/`, then `name`.
pub open spec fn joined(folder: Seq<char>, name: Seq<char>) -> Seq<char> {
    folder + seq!['/'] + name
}

/// `folder`, a `/`, then `name`.
pub fn join_key(folder: &str, name: &str) -> (key: String)
    ensures
        key@ == joined(folder@, name@),
{
    let mut key = String::from_str(folder);
    proof {
        reveal_strlit("/");
        assert("/"@ =~= seq!['/']);
    }
    key.append("/");
    key.append(name);
    key
}

/// `s` with every `\` turned into `/`.
pub open spec fn with_forward_slashes(s: Seq<char>) -> Seq<char> {
    Seq::new(
        s.len(),
        |i: int|
            if s[i] == '\\' {
                '/'
            } else {
                s[i]
            },
    )
}

/// `path` with every `\` turned into `/`.
pub fn forward_slashes(path: &str) -> (out: String)
    ensures
        out@ == with_forward_slashes(path@),
{
    let chars = chars_of(path);
    let n = chars.len();
    let mut out = String::new();
    let mut i: usize = 0;
    proof {
        reveal_strlit("/");
        assert("/"@ =~= seq!['/']);
    }
    while i < n
        invariant
            chars@ == path@,
            n == chars@.len(),
            i <= n,
            "/"@ == seq!['/'],
            out@ == with_forward_slashes(path@).take(i as int),
        decreases n - i,
    {
        let ghost before = out@;
        if chars[i] == '\\' {
            out.append("/");
        } else {
            out.append(path.substring_char(i, i + 1));
        }
        proof {
            assert(out@ =~= with_forward_slashes(path@).take(i + 1));
        }
        i += 1;
    }
    proof {
        assert(with_forward_slashes(path@).take(n as int) =~= with_forward_slashes(path@));
    }
    out
}

/// Whether a character has the Unicode property `White_Space`: the
/// controls from tab to carriage return, the space, next line, the
/// no-break spaces, the spaces of fixed width, and the line and paragraph
/// separators.
pub open spec fn is_white_space(c: char) -> bool {
    ||| '\u{9}' <= c <= '\u{d}'
    ||| c == ' '
    ||| c == '\u{85}'
    ||| c == '\u{a0}'
    ||| c == '\u{1680}'
    ||| '\u{2000}' <= c <= '\u{200a}'
    ||| c == '\u{2028}'
    ||| c == '\u{2029}'
    ||| c == '\u{202f}'
    ||| c == '\u{205f}'
    ||| c == '\u{3000}'
}

/// `char::is_whitespace`.
///
/// Trusted: the answer is whether the character has the property
/// `White_Space`, whose members [`is_white_space`] lists.
#[verifier::external_body]
fn char_is_whitespace(c: char) -> (b: bool)
    ensures
        b == is_white_space(c),
{
    c.is_whitespace()
}

/// Whether `s` holds nothing but white space.
pub open spec fn is_blank(s: Seq<char>) -> bool {
    forall|i: int| 0 <= i < s.len() ==> is_white_space(#[trigger] s[i])
}

/// Whether `s` is empty once leading and trailing white space is removed.
pub fn is_blank_text(s: &str) -> (b: bool)
    ensures
        b == is_blank(s@),
{
    let chars = chars_of(s);
    let mut i: usize = 0;
    while i < chars.len()
        invariant
            chars@ == s@,
            i <= chars@.len(),
            forall|j: int| 0 <= j < i ==> is_white_space(#[trigger] chars@[j]),
        decreases chars@.len() - i,
    {
        if !char_is_whitespace(chars[i]) {
            return false;
        }
        i += 1;
    }
    true
}

/// The UTF-8 bytes of the lower-case form of a text.
pub uninterp spec fn lowercase_utf8(s: Seq<char>) -> Seq<u8>;

/// `str::to_lowercase`, as bytes.
///
/// Trusted: the result is a function of the text.
#[verifier::external_body]
pub(crate) fn lowercase_bytes(s: &str) -> (out: Vec<u8>)
    ensures
        out@ == lowercase_utf8(s@),
{
    s.to_lowercase().into_bytes()
}

/// Whether `a` comes before `b` or equals it, byte by byte: at the first
/// difference `a` has the smaller byte, or `a` is a prefix of `b`.
pub open spec fn bytes_le(a: Seq<u8>, b: Seq<u8>) -> bool
    decreases a.len(),
{
    if a.len() == 0 {
        true
    } else if b.len() == 0 {
        false
    } else if a[0] != b[0] {
        a[0] < b[0]
    } else {
        bytes_le(a.skip(1), b.skip(1))
    }
}

/// The byte order is reflexive.
pub proof fn lemma_bytes_le_refl(a: Seq<u8>)
    ensures
        bytes_le(a, a),
    decreases a.len(),
{
    if a.len() > 0 {
        lemma_bytes_le_refl(a.skip(1));
    }
}

/// The byte order is total.
pub proof fn lemma_bytes_le_total(a: Seq<u8>, b: Seq<u8>)
    ensures
        bytes_le(a, b) || bytes_le(b, a),
    decreases a.len(),
{
    if a.len() > 0 && b.len() > 0 && a[0] == b[0] {
        lemma_bytes_le_total(a.skip(1), b.skip(1));
    }
}

/// The byte order is transitive.
pub proof fn lemma_bytes_le_trans(a: Seq<u8>, b: Seq<u8>, c: Seq<u8>)
    requires
        bytes_le(a, b),
        bytes_le(b, c),
    ensures
        bytes_le(a, c),
    decreases a.len(),
{
    if a.len() > 0 && b.len() > 0 && c.len() > 0 && a[0] == b[0] && b[0] == c[0] {
        lemma_bytes_le_trans(a.skip(1), b.skip(1), c.skip(1));
    }
}

/// Whether `a` comes before `b` or equals it, byte by byte.
pub fn bytes_before_or_equal(a: &[u8], b: &[u8]) -> (r: bool)
    ensures
        r == bytes_le(a@, b@),
{
    let mut i: usize = 0;
    proof {
        assert(a@.skip(0) =~= a@);
        assert(b@.skip(0) =~= b@);
    }
    while i < a.len() && i < b.len()
        invariant
            i <= a@.len(),
            i <= b@.len(),
            bytes_le(a@, b@) == bytes_le(a@.skip(i as int), b@.skip(i as int)),
        decreases a@.len() - i,
    {
        if a[i] != b[i] {
            return a[i] < b[i];
        }
        proof {
            assert(a@.skip(i as int).skip(1) =~= a@.skip(i + 1));
            assert(b@.skip(i as int).skip(1) =~= b@.skip(i + 1));
        }
        i += 1;
    }
    i == a.len()
}

} // verus!
