//! Text primitives on strings viewed as sequences of characters: searching,
//! replacing, splitting paths and joining pieces.

use crate::sequences::{first_where, lemma_first_where, lemma_first_where_is};
use vstd::prelude::*;
use vstd::string::StringExecFns;
use vstd::string::StrSliceExecFns;

verus! {

/// `pat` stands in `s` at position `i`.
pub open spec fn occurs_at(s: Seq<char>, pat: Seq<char>, i: int) -> bool {
    0 <= i && i + pat.len() <= s.len() && s.subrange(i, i + pat.len()) == pat
}

/// `pat` stands somewhere in `s`.
pub open spec fn contains_text(s: Seq<char>, pat: Seq<char>) -> bool {
    exists|i: int| occurs_at(s, pat, i)
}

/// `s` ends with `p`.
pub open spec fn ends_with(s: Seq<char>, p: Seq<char>) -> bool {
    occurs_at(s, p, s.len() - p.len())
}

/// `s` without `p` at its end; `s` itself where it does not end with `p`.
pub open spec fn without_suffix(s: Seq<char>, p: Seq<char>) -> Seq<char> {
    if ends_with(s, p) {
        s.take(s.len() - p.len())
    } else {
        s
    }
}

/// White space as Unicode defines it: the characters with the property
/// `White_Space`.
pub open spec fn is_white_space(c: char) -> bool {
    let n = c as int;
    9 <= n <= 13 || n == 0x20 || n == 0x85 || n == 0xa0 || n == 0x1680 || 0x2000 <= n <= 0x200a
        || n == 0x2028 || n == 0x2029 || n == 0x202f || n == 0x205f || n == 0x3000
}

/// The test "is no white space".
pub open spec fn is_ink() -> spec_fn(char) -> bool {
    |c: char| !is_white_space(c)
}

/// How much white space stands at the end of `s`.
pub open spec fn trailing_space(s: Seq<char>) -> int
    decreases s.len(),
{
    if s.len() == 0 || !is_white_space(s.last()) {
        0
    } else {
        1 + trailing_space(s.drop_last())
    }
}

/// `s` without the white space at its beginning and at its end.
pub open spec fn trimmed(s: Seq<char>) -> Seq<char> {
    let from = first_where(s, is_ink());
    if from >= s.len() {
        Seq::empty()
    } else {
        s.subrange(from, s.len() - trailing_space(s))
    }
}

/// Where the part of `s` behind its last `sep` begins: 0 when `s` holds no `sep`.
pub open spec fn segment_start(s: Seq<char>, sep: char) -> int
    decreases s.len(),
{
    if s.len() == 0 {
        0
    } else if s.last() == sep {
        s.len() as int
    } else {
        segment_start(s.drop_last(), sep)
    }
}

/// The part of `s` behind its last `sep`; all of `s` when it holds none.
pub open spec fn last_segment(s: Seq<char>, sep: char) -> Seq<char> {
    s.subrange(segment_start(s, sep), s.len() as int)
}

/// What the last segment is: it begins at the start of the text or behind a
/// separator, and it holds no separator.
pub proof fn lemma_last_segment(s: Seq<char>, sep: char)
    ensures
        0 <= segment_start(s, sep) <= s.len(),
        segment_start(s, sep) > 0 ==> s[segment_start(s, sep) - 1] == sep,
        forall|i: int| segment_start(s, sep) <= i < s.len() ==> s[i] != sep,
    decreases s.len(),
{
    if s.len() > 0 && s.last() != sep {
        let before = s.drop_last();
        lemma_last_segment(before, sep);
        assert forall|i: int| segment_start(s, sep) <= i < s.len() implies s[i] != sep by {
            if i < s.len() - 1 {
                assert(s[i] == before[i]);
            }
        }
    }
}

/// `a` sorts strictly before `b`: at the first place where they differ `a` has
/// the smaller character, or `a` ends there and `b` goes on.
pub open spec fn text_lt(a: Seq<char>, b: Seq<char>) -> bool
    decreases a.len(),
{
    if b.len() == 0 {
        false
    } else if a.len() == 0 {
        true
    } else if a[0] != b[0] {
        (a[0] as int) < (b[0] as int)
    } else {
        text_lt(a.drop_first(), b.drop_first())
    }
}

/// No text sorts before itself.
pub proof fn lemma_text_lt_irreflexive(a: Seq<char>)
    ensures
        !text_lt(a, a),
    decreases a.len(),
{
    if a.len() > 0 {
        lemma_text_lt_irreflexive(a.drop_first());
    }
}

/// The order of texts is transitive.
pub proof fn lemma_text_lt_transitive(a: Seq<char>, b: Seq<char>, c: Seq<char>)
    requires
        text_lt(a, b),
        text_lt(b, c),
    ensures
        text_lt(a, c),
    decreases a.len(),
{
    if a.len() > 0 && a[0] == b[0] && b[0] == c[0] {
        lemma_text_lt_transitive(a.drop_first(), b.drop_first(), c.drop_first());
    }
}

/// Of two different texts one sorts before the other.
pub proof fn lemma_text_lt_total(a: Seq<char>, b: Seq<char>)
    ensures
        a == b || text_lt(a, b) || text_lt(b, a),
    decreases a.len(),
{
    if a.len() > 0 && b.len() > 0 && a[0] == b[0] {
        lemma_text_lt_total(a.drop_first(), b.drop_first());
        if a.drop_first() == b.drop_first() {
            assert(a =~= seq![a[0]] + a.drop_first());
            assert(b =~= seq![b[0]] + b.drop_first());
        }
    } else if a.len() == 0 && b.len() == 0 {
        assert(a =~= b);
    }
}

/// The character of a decimal digit.
pub open spec fn digit_char(d: nat) -> char {
    if d == 0 {
        '0'
    } else if d == 1 {
        '1'
    } else if d == 2 {
        '2'
    } else if d == 3 {
        '3'
    } else if d == 4 {
        '4'
    } else if d == 5 {
        '5'
    } else if d == 6 {
        '6'
    } else if d == 7 {
        '7'
    } else if d == 8 {
        '8'
    } else {
        '9'
    }
}

/// A number written in decimal, without leading zeros.
pub open spec fn decimal_text(n: nat) -> Seq<char>
    decreases n,
{
    if n < 10 {
        seq![digit_char(n)]
    } else {
        decimal_text(n / 10).push(digit_char(n % 10))
    }
}

/// What `str::to_lowercase` gives for a text: its lowercase form by the rules of
/// Unicode.
pub uninterp spec fn lowercase_of(s: Seq<char>) -> Seq<char>;

/// `keys` with `k` put before the first key that does not sort before it,
/// unless that key is `k` itself.
pub open spec fn insert_key(keys: Seq<Seq<char>>, k: Seq<char>) -> Seq<Seq<char>> {
    let at = first_where(keys, |x: Seq<char>| !text_lt(x, k));
    if at < keys.len() && keys[at] == k {
        keys
    } else {
        keys.insert(at, k)
    }
}

/// Each key sorts strictly before the keys behind it.
pub open spec fn ascending(keys: Seq<Seq<char>>) -> bool {
    forall|i: int, j: int| 0 <= i < j < keys.len() ==> text_lt(#[trigger] keys[i], #[trigger] keys[j])
}

/// Putting a key into an ascending list keeps it ascending, adds that key and
/// nothing else, and loses none.
pub proof fn lemma_insert_key(keys: Seq<Seq<char>>, k: Seq<char>)
    requires
        ascending(keys),
    ensures
        ascending(insert_key(keys, k)),
        insert_key(keys, k).contains(k),
        forall|x: Seq<char>| keys.contains(x) ==> insert_key(keys, k).contains(x),
        forall|x: Seq<char>| insert_key(keys, k).contains(x) ==> x == k || keys.contains(x),
{
    let p = |x: Seq<char>| !text_lt(x, k);
    let at = first_where(keys, p);
    let r = insert_key(keys, k);
    lemma_first_where(keys, p);
    if at < keys.len() && keys[at] == k {
        assert(r[at] == k);
    } else {
        assert(r == keys.insert(at, k));
        assert(r.len() == keys.len() + 1);
        assert(r[at] == k);
        assert forall|i: int| 0 <= i < at implies text_lt(keys[i], k) by {
            assert(!p(keys[i]));
        }
        assert forall|i: int| at <= i < keys.len() implies text_lt(k, keys[i]) by {
            lemma_text_lt_total(k, keys[at]);
            assert(p(keys[at]));
            if at < i {
                assert(text_lt(keys[at], keys[i]));
                lemma_text_lt_transitive(k, keys[at], keys[i]);
            }
        }
        assert forall|i: int, j: int| 0 <= i < j < r.len() implies text_lt(
            #[trigger] r[i],
            #[trigger] r[j],
        ) by {
            if j < at {
                assert(r[i] == keys[i] && r[j] == keys[j]);
            } else if j == at {
                assert(r[i] == keys[i]);
            } else if i < at {
                assert(r[i] == keys[i] && r[j] == keys[j - 1]);
                if at == j - 1 {
                    lemma_text_lt_transitive(keys[i], k, keys[j - 1]);
                }
            } else if i == at {
                assert(r[j] == keys[j - 1]);
            } else {
                assert(r[i] == keys[i - 1] && r[j] == keys[j - 1]);
            }
        }
        assert forall|x: Seq<char>| keys.contains(x) implies r.contains(x) by {
            let i = choose|i: int| 0 <= i < keys.len() && keys[i] == x;
            if i < at {
                assert(r[i] == x);
            } else {
                assert(r[i + 1] == x);
            }
        }
        assert forall|x: Seq<char>| r.contains(x) implies x == k || keys.contains(x) by {
            let i = choose|i: int| 0 <= i < r.len() && r[i] == x;
            if i < at {
                assert(keys[i] == x);
            } else if i > at {
                assert(keys[i - 1] == x);
            }
        }
    }
}

/// The view of an optional string.
pub open spec fn text_option(o: Option<String>) -> Option<Seq<char>> {
    match o {
        Some(s) => Some(s@),
        None => None,
    }
}

/// The views of a sequence of strings.
pub open spec fn texts_model(s: Seq<String>) -> Seq<Seq<char>> {
    s.map_values(|x: String| x@)
}

/// The characters of a string, one by one.
pub fn chars_of(s: &str) -> (r: Vec<char>)
    ensures
        r@ == s@,
{
    let mut out: Vec<char> = Vec::new();
    for c in it: s.chars()
        invariant
            out@ == it.seq().take(it.index() as int),
            it.seq() == s@,
    {
        out.push(c);
    }
    out
}

/// `a` followed by `b`.
pub fn join2(a: &str, b: &str) -> (r: String)
    ensures
        r@ == a@ + b@,
{
    let mut r = a.to_owned();
    r.append(b);
    r
}

/// Whether two strings hold the same characters.
pub fn text_eq(a: &str, b: &str) -> (r: bool)
    ensures
        r == (a@ == b@),
{
    let x = a.to_owned();
    let y = b.to_owned();
    x == y
}

/// Whether `pat` stands in `s` at position `i`.
pub fn matches_at(s: &Vec<char>, pat: &Vec<char>, i: usize) -> (r: bool)
    ensures
        r == occurs_at(s@, pat@, i as int),
{
    let n = s.len();
    let m = pat.len();
    if i > n || m > n - i {
        return false;
    }
    let mut k: usize = 0;
    while k < m
        invariant
            n == s@.len(),
            m == pat@.len(),
            k <= m,
            i + m <= n,
            forall|j: int| 0 <= j < k ==> s@[i + j] == pat@[j],
        decreases m - k,
    {
        if s[i + k] != pat[k] {
            assert(s@.subrange(i as int, i + m)[k as int] == s@[i + k]);
            return false;
        }
        k += 1;
    }
    assert(s@.subrange(i as int, i + m) =~= pat@);
    true
}

/// Whether `pat` stands somewhere in `s`.
pub fn contains(s: &str, pat: &str) -> (r: bool)
    ensures
        r == contains_text(s@, pat@),
{
    let sv = chars_of(s);
    let pv = chars_of(pat);
    let n = sv.len();
    let m = pv.len();
    if m > n {
        return false;
    }
    let last = n - m;
    let mut i: usize = 0;
    while i < last
        invariant
            n == sv@.len(),
            m == pv@.len(),
            last == n - m,
            i <= last,
            sv@ == s@,
            pv@ == pat@,
            forall|j: int| 0 <= j < i ==> !occurs_at(s@, pat@, j),
        decreases last - i,
    {
        if matches_at(&sv, &pv, i) {
            return true;
        }
        i += 1;
    }
    matches_at(&sv, &pv, last)
}

/// Where the part of `s` behind its last `sep` begins.
pub fn last_start(s: &Vec<char>, sep: char) -> (r: usize)
    ensures
        r == segment_start(s@, sep),
        r <= s@.len(),
{
    let n = s.len();
    let mut i: usize = n;
    proof {
        assert(s@.take(n as int) =~= s@);
    }
    while i > 0 && s[i - 1] != sep
        invariant
            n == s@.len(),
            i <= n,
            segment_start(s@, sep) == segment_start(s@.take(i as int), sep),
        decreases i,
    {
        proof {
            assert(s@.take(i as int).drop_last() =~= s@.take(i - 1));
        }
        i -= 1;
    }
    proof {
        if i > 0 {
            assert(s@.take(i as int).last() == sep);
        }
    }
    i
}

/// The part of `s` behind its last `sep`; all of `s` when it holds none.
pub fn last_part(s: &str, sep: char) -> (r: String)
    ensures
        r@ == last_segment(s@, sep),
{
    let sv = chars_of(s);
    let from = last_start(&sv, sep);
    s.substring_char(from, sv.len()).to_owned()
}

/// One decimal digit as text.
fn digit(d: u32) -> (r: &'static str)
    requires
        d < 10,
    ensures
        r@ == seq![digit_char(d as nat)],
{
    proof {
        reveal_strlit("0");
        reveal_strlit("1");
        reveal_strlit("2");
        reveal_strlit("3");
        reveal_strlit("4");
        reveal_strlit("5");
        reveal_strlit("6");
        reveal_strlit("7");
        reveal_strlit("8");
        reveal_strlit("9");
    }
    let r = if d == 0 {
        "0"
    } else if d == 1 {
        "1"
    } else if d == 2 {
        "2"
    } else if d == 3 {
        "3"
    } else if d == 4 {
        "4"
    } else if d == 5 {
        "5"
    } else if d == 6 {
        "6"
    } else if d == 7 {
        "7"
    } else if d == 8 {
        "8"
    } else {
        "9"
    };
    assert(r@ =~= seq![digit_char(d as nat)]);
    r
}

/// A number written in decimal.
pub fn decimal(n: u32) -> (r: String)
    ensures
        r@ == decimal_text(n as nat),
    decreases n,
{
    if n < 10 {
        digit(n).to_owned()
    } else {
        let mut r = decimal(n / 10);
        let d = digit(n % 10);
        r.append(d);
        assert(r@ =~= decimal_text(n as nat));
        r
    }
}

/// Calls `str::to_lowercase`. Its result depends on the text alone; what it is,
/// letter by letter, is not stated here.
#[verifier::external_body]
pub(crate) fn to_lowercase(s: &str) -> (r: String)
    ensures
        r@ == lowercase_of(s@),
{
    s.to_lowercase()
}

/// The code point of a character.
fn code_of(c: char) -> (r: u32)
    ensures
        r as int == c as int,
{
    c as u32
}

/// Whether `a` sorts strictly before `b`.
pub fn text_less(a: &str, b: &str) -> (r: bool)
    ensures
        r == text_lt(a@, b@),
{
    let av = chars_of(a);
    let bv = chars_of(b);
    let mut i: usize = 0;
    proof {
        assert(a@.skip(0) =~= a@);
        assert(b@.skip(0) =~= b@);
    }
    while i < av.len() && i < bv.len()
        invariant
            av@ == a@,
            bv@ == b@,
            i <= av@.len(),
            i <= bv@.len(),
            text_lt(a@, b@) == text_lt(a@.skip(i as int), b@.skip(i as int)),
        decreases av@.len() - i,
    {
        proof {
            assert(a@.skip(i as int).drop_first() =~= a@.skip(i + 1));
            assert(b@.skip(i as int).drop_first() =~= b@.skip(i + 1));
        }
        let x: char = av[i];
        let y: char = bv[i];
        if x != y {
            return code_of(x) < code_of(y);
        }
        i += 1;
    }
    i < bv.len()
}

/// Puts the text `k` at its place in the ascending list `keys`, unless it is
/// there already.
pub fn insert_sorted(keys: &mut Vec<String>, k: String)
    ensures
        texts_model(final(keys)@) == insert_key(texts_model(old(keys)@), k@),
{
    let ghost p = |x: Seq<char>| !text_lt(x, k@);
    let ghost m = texts_model(keys@);
    let mut at: usize = 0;
    while at < keys.len() && text_less(keys[at].as_str(), k.as_str())
        invariant
            *keys == *old(keys),
            m == texts_model(keys@),
            at <= keys@.len(),
            p == |x: Seq<char>| !text_lt(x, k@),
            forall|j: int| 0 <= j < at ==> !p(#[trigger] m[j]),
        decreases keys@.len() - at,
    {
        at += 1;
    }
    proof {
        lemma_first_where_is(m, p, at as int);
    }
    if at < keys.len() && keys[at] == k {
    } else {
        keys.insert(at, k);
        proof {
            assert(texts_model(keys@) =~= m.insert(at as int, k@));
        }
    }
}

/// A copy of an optional string.
pub fn clone_text_option(o: &Option<String>) -> (r: Option<String>)
    ensures
        text_option(r) == text_option(*o),
{
    match o {
        Some(s) => Some(s.clone()),
        None => None,
    }
}

/// Whether `c` is white space.
pub fn white_space(c: char) -> (r: bool)
    ensures
        r == is_white_space(c),
{
    let n = code_of(c);
    (9 <= n && n <= 13) || n == 0x20 || n == 0x85 || n == 0xa0 || n == 0x1680 || (0x2000 <= n && n
        <= 0x200a) || n == 0x2028 || n == 0x2029 || n == 0x202f || n == 0x205f || n == 0x3000
}

/// `s` without `p` at its end.
pub fn strip_suffix(s: &str, p: &str) -> (r: String)
    ensures
        r@ == without_suffix(s@, p@),
{
    let sv = chars_of(s);
    let pv = chars_of(p);
    let n = sv.len();
    let m = pv.len();
    if m <= n && matches_at(&sv, &pv, n - m) {
        proof {
            assert(s@.subrange(0, n - m) =~= s@.take(n - m));
        }
        s.substring_char(0, n - m).to_owned()
    } else {
        s.to_owned()
    }
}

/// `s` without the white space at its beginning and at its end.
pub fn trim(s: &str) -> (r: String)
    ensures
        r@ == trimmed(s@),
{
    let cs = chars_of(s);
    let n = cs.len();
    let mut from: usize = 0;
    while from < n && white_space(cs[from])
        invariant
            cs@ == s@,
            n == cs@.len(),
            from <= n,
            forall|j: int| 0 <= j < from ==> !is_ink()(#[trigger] s@[j]),
        decreases n - from,
    {
        from += 1;
    }
    proof {
        lemma_first_where_is(s@, is_ink(), from as int);
    }
    if from >= n {
        proof {
            reveal_strlit("");
            assert(""@ =~= Seq::<char>::empty());
        }
        return "".to_owned();
    }
    let mut to: usize = n;
    proof {
        assert(s@.take(n as int) =~= s@);
    }
    while white_space(cs[to - 1])
        invariant
            cs@ == s@,
            n == cs@.len(),
            from < to <= n,
            !is_white_space(s@[from as int]),
            trailing_space(s@) == (n - to) + trailing_space(s@.take(to as int)),
        decreases to,
    {
        proof {
            assert(s@.take(to as int).drop_last() =~= s@.take(to - 1));
            assert(s@.take(to as int).last() == s@[to - 1]);
        }
        to -= 1;
    }
    proof {
        assert(s@.take(to as int).last() == s@[to - 1]);
    }
    s.substring_char(from, to).to_owned()
}

} // verus!
