//! Text helpers: capitalisation, concatenation and the lexical order of keys.
use vstd::prelude::*;

verus! {

/// What `char::to_uppercase` yields for a character, collected into text.
pub uninterp spec fn upper_of(c: char) -> Seq<char>;

/// The text with its first character replaced by that character's uppercase form.
pub open spec fn capitalize(s: Seq<char>) -> Seq<char> {
    if s.len() == 0 {
        Seq::empty()
    } else {
        upper_of(s[0]) + s.drop_first()
    }
}

/// `a` comes strictly before `b` in lexical order of code points.
pub open spec fn key_before(a: Seq<char>, b: Seq<char>) -> bool {
    exists|k: int| #![trigger a.subrange(0, k)] differ_at(a, b, k) && k < b.len() && (k == a.len()
        || a[k] < b[k])
}

/// `a` and `b` agree on their first `k` characters and `k` is where they part.
pub open spec fn differ_at(a: Seq<char>, b: Seq<char>, k: int) -> bool {
    &&& 0 <= k <= a.len()
    &&& k <= b.len()
    &&& a.subrange(0, k) == b.subrange(0, k)
    &&& (k == a.len() || k == b.len() || a[k] != b[k])
}

/// The characters of the text, in order.
fn chars_of(s: &str) -> (r: Vec<char>)
    ensures
        r@ == s@,
{
    let n = s.unicode_len();
    let mut v: Vec<char> = Vec::new();
    let mut i: usize = 0;
    while i < n
        invariant
            n == s@.len(),
            i <= n,
            v@ == s@.subrange(0, i as int),
        decreases n - i,
    {
        v.push(s.get_char(i));
        i = i + 1;
    }
    assert(s@.subrange(0, n as int) == s@);
    v
}

/// Relies on `char::to_uppercase`, collected into a `String`: the uppercase mapping of a
/// character, which its documentation gives as one or more characters.
#[verifier::external_body]
fn char_upper(c: char) -> (r: String)
    ensures
        r@ == upper_of(c),
        r@.len() >= 1,
{
    c.to_uppercase().collect::<String>()
}

/// Relies on `String::push`: appends one character.
#[verifier::external_body]
fn push_char(s: &mut String, c: char)
    ensures
        final(s)@ == old(s)@.push(c),
{
    s.push(c)
}

/// The concatenation of two texts.
pub fn join(a: &str, b: &str) -> (r: String)
    ensures
        r@ == a@ + b@,
{
    let mut r = a.to_owned();
    r.append(b);
    r
}

/// The text with its first character in uppercase, the rest unchanged.
pub fn uppercase_first_letter(s: &str) -> (r: String)
    ensures
        r@ == capitalize(s@),
{
    let cs = chars_of(s);
    if cs.len() == 0 {
        return String::new();
    }
    let mut r = char_upper(cs[0]);
    let mut i: usize = 1;
    while i < cs.len()
        invariant
            1 <= i <= cs.len(),
            cs@ == s@,
            r@ == upper_of(cs@[0]) + cs@.subrange(1, i as int),
        decreases cs.len() - i,
    {
        push_char(&mut r, cs[i]);
        assert(cs@.subrange(1, i + 1) == cs@.subrange(1, i as int).push(cs@[i as int]));
        i = i + 1;
    }
    assert(cs@.subrange(1, cs.len() as int) == cs@.drop_first());
    r
}

proof fn lemma_differ_unique(a: Seq<char>, b: Seq<char>, k: int, j: int)
    requires
        differ_at(a, b, k),
        differ_at(a, b, j),
    ensures
        k == j,
{
    if j < k {
        assert(a.subrange(0, k)[j] == a[j]);
        assert(b.subrange(0, k)[j] == b[j]);
    } else if k < j {
        assert(a.subrange(0, j)[k] == a[k]);
        assert(b.subrange(0, j)[k] == b[k]);
    }
}

/// Compares two keys: negative when `a` comes first, zero when equal, positive when `b` does.
pub fn compare_keys(a: &String, b: &String) -> (r: i8)
    ensures
        r < 0 <==> key_before(a@, b@),
        r == 0 <==> a@ == b@,
        r > 0 <==> key_before(b@, a@),
{
    let x = chars_of(a.as_str());
    let y = chars_of(b.as_str());
    let mut i: usize = 0;
    while i < x.len() && i < y.len() && x[i] == y[i]
        invariant
            i <= x.len(),
            i <= y.len(),
            x@ == a@,
            y@ == b@,
            x@.subrange(0, i as int) == y@.subrange(0, i as int),
        decreases x.len() - i,
    {
        assert(x@.subrange(0, i + 1) == x@.subrange(0, i as int).push(x@[i as int]));
        assert(y@.subrange(0, i + 1) == y@.subrange(0, i as int).push(y@[i as int]));
        i = i + 1;
    }
    let ghost k = i as int;
    assert(differ_at(a@, b@, k));
    assert(differ_at(b@, a@, k));
    assert forall|j: int| differ_at(a@, b@, j) implies j == k by {
        lemma_differ_unique(a@, b@, k, j);
    }
    assert forall|j: int| differ_at(b@, a@, j) implies j == k by {
        lemma_differ_unique(b@, a@, k, j);
    }
    assert(a@.subrange(0, k) == b@.subrange(0, k));
    if i == x.len() && i == y.len() {
        assert(a@ == a@.subrange(0, k));
        assert(b@ == b@.subrange(0, k));
        0
    } else if i == x.len() {
        -1
    } else if i == y.len() {
        1
    } else if x[i] < y[i] {
        -1
    } else {
        1
    }
}

} // verus!
