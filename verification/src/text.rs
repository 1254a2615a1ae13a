//! Character-level building blocks shared by the whole library.
//!
//! Strings are modelled by their view, a `Seq<char>`. The spec functions here
//! give the meaning of the std string operations that the blog relies on
//! (`split`, `split_once`, `trim`, `eq_ignore_ascii_case`, ...), and the exec
//! functions implement them over `Vec<char>`.
use vstd::prelude::*;

verus! {

/// Rust's `char::is_whitespace`: the Unicode `White_Space` property.
pub open spec fn is_ws(c: char) -> bool {
    let u = c as u32;
    ||| 0x09 <= u <= 0x0D
    ||| u == 0x20
    ||| u == 0x85
    ||| u == 0xA0
    ||| u == 0x1680
    ||| 0x2000 <= u <= 0x200A
    ||| u == 0x2028
    ||| u == 0x2029
    ||| u == 0x202F
    ||| u == 0x205F
    ||| u == 0x3000
}

pub open spec fn is_ascii_upper(c: char) -> bool {
    65 <= (c as u32) <= 90
}

pub open spec fn is_ascii_lower(c: char) -> bool {
    97 <= (c as u32) <= 122
}

pub open spec fn is_ascii_digit(c: char) -> bool {
    48 <= (c as u32) <= 57
}

pub open spec fn is_ascii_alpha(c: char) -> bool {
    is_ascii_upper(c) || is_ascii_lower(c)
}

pub open spec fn is_ascii_alnum(c: char) -> bool {
    is_ascii_alpha(c) || is_ascii_digit(c)
}

/// The code of a character after ASCII lowercasing.
pub open spec fn fold(c: char) -> int {
    if is_ascii_upper(c) {
        (c as u32) + 32
    } else {
        c as u32 as int
    }
}

/// `str::eq_ignore_ascii_case`.
pub open spec fn eq_ic(a: Seq<char>, b: Seq<char>) -> bool {
    &&& a.len() == b.len()
    &&& forall|i: int| 0 <= i < a.len() ==> #[trigger] fold(a[i]) == fold(b[i])
}

/// Index of the first occurrence of `c` in `s`, or -1.
pub open spec fn find(s: Seq<char>, c: char) -> int
    decreases s.len(),
{
    if s.len() == 0 {
        -1
    } else {
        let r = find(s.drop_last(), c);
        if r >= 0 {
            r
        } else if s.last() == c {
            s.len() - 1
        } else {
            -1
        }
    }
}

/// `str::split` on a single character: the pieces between the separators.
pub open spec fn split(s: Seq<char>, sep: char) -> Seq<Seq<char>>
    decreases s.len(),
{
    if s.len() == 0 {
        seq![Seq::<char>::empty()]
    } else {
        let p = split(s.drop_last(), sep);
        if s.last() == sep {
            p.push(Seq::<char>::empty())
        } else {
            p.update(p.len() - 1, p.last().push(s.last()))
        }
    }
}

/// `str::split_once` on a single character.
pub open spec fn split_once(s: Seq<char>, sep: char) -> Option<(Seq<char>, Seq<char>)> {
    let i = find(s, sep);
    if i < 0 {
        None
    } else {
        Some((s.take(i), s.skip(i + 1)))
    }
}

/// `[..].join(sep)`.
pub open spec fn join(ps: Seq<Seq<char>>, sep: char) -> Seq<char>
    decreases ps.len(),
{
    if ps.len() == 0 {
        Seq::<char>::empty()
    } else if ps.len() == 1 {
        ps[0]
    } else {
        join(ps.drop_last(), sep).push(sep) + ps.last()
    }
}

/// Number of leading whitespace characters.
pub open spec fn leading_ws(s: Seq<char>) -> nat
    decreases s.len(),
{
    if s.len() == 0 {
        0
    } else if is_ws(s[0]) {
        1 + leading_ws(s.drop_first())
    } else {
        0
    }
}

/// Number of trailing whitespace characters.
pub open spec fn trailing_ws(s: Seq<char>) -> nat
    decreases s.len(),
{
    if s.len() == 0 {
        0
    } else if is_ws(s.last()) {
        1 + trailing_ws(s.drop_last())
    } else {
        0
    }
}

/// `str::trim`.
pub open spec fn trim(s: Seq<char>) -> Seq<char> {
    let t = s.skip(leading_ws(s) as int);
    t.take(t.len() - trailing_ws(t))
}

/// `str::starts_with`.
pub open spec fn starts_with(s: Seq<char>, p: Seq<char>) -> bool {
    p.len() <= s.len() && s.take(p.len() as int) == p
}

/// Whether some character of `s` is whitespace.
pub open spec fn has_ws(s: Seq<char>) -> bool {
    exists|i: int| 0 <= i < s.len() && is_ws(#[trigger] s[i])
}

/// Decimal digit `d` as a character.
pub open spec fn digit_char(d: nat) -> char {
    seq!['0', '1', '2', '3', '4', '5', '6', '7', '8', '9'][d as int]
}

/// Decimal representation of a natural number, as `format!("{}")` writes it.
pub open spec fn decimal(n: nat) -> Seq<char>
    decreases n,
{
    if n < 10 {
        seq![digit_char(n)]
    } else {
        decimal(n / 10).push(digit_char(n % 10))
    }
}

// ---------------------------------------------------------------------------
// Lemmas
// ---------------------------------------------------------------------------

pub proof fn lemma_find(s: Seq<char>, c: char)
    ensures
        -1 <= find(s, c) < s.len(),
        find(s, c) == -1 <==> !s.contains(c),
        find(s, c) >= 0 ==> s[find(s, c)] == c,
        forall|j: int| 0 <= j < find(s, c) ==> s[j] != c,
        find(s, c) == -1 ==> forall|j: int| 0 <= j < s.len() ==> s[j] != c,
    decreases s.len(),
{
    if s.len() > 0 {
        lemma_find(s.drop_last(), c);
        assert(forall|j: int| 0 <= j < s.len() - 1 ==> s.drop_last()[j] == s[j]);
        if find(s.drop_last(), c) < 0 && s.last() != c {
            assert forall|j: int| 0 <= j < s.len() implies s[j] != c by {
                if j < s.len() - 1 {
                    assert(s.drop_last()[j] == s[j]);
                }
            }
        }
        if find(s, c) >= 0 {
            assert(s.contains(c)) by {
                assert(s[find(s, c)] == c);
            }
        } else {
            assert(forall|j: int| 0 <= j < s.len() ==> s[j] != c);
        }
    }
}

/// The first index holding `c` characterises `find`.
pub proof fn lemma_find_first(s: Seq<char>, c: char, k: int)
    requires
        0 <= k <= s.len(),
        forall|j: int| 0 <= j < k ==> s[j] != c,
        k < s.len() ==> s[k] == c,
    ensures
        find(s, c) == if k < s.len() { k } else { -1 },
{
    lemma_find(s, c);
    if k < s.len() {
        assert(s.contains(c)) by {
            assert(s[k] == c);
        }
    } else {
        assert(!s.contains(c));
    }
}

pub proof fn lemma_leading_ws(s: Seq<char>, k: int)
    requires
        0 <= k <= s.len(),
        forall|j: int| 0 <= j < k ==> is_ws(#[trigger] s[j]),
        k < s.len() ==> !is_ws(s[k]),
    ensures
        leading_ws(s) == k,
    decreases k,
{
    if k > 0 {
        let t = s.drop_first();
        assert forall|j: int| 0 <= j < k - 1 implies is_ws(#[trigger] t[j]) by {
            assert(t[j] == s[j + 1]);
        }
        if k < s.len() {
            assert(t[k - 1] == s[k]);
        }
        lemma_leading_ws(t, k - 1);
    }
}

pub proof fn lemma_trailing_ws(s: Seq<char>, k: int)
    requires
        0 <= k <= s.len(),
        forall|j: int| s.len() - k <= j < s.len() ==> is_ws(#[trigger] s[j]),
        k < s.len() ==> !is_ws(s[s.len() - k - 1]),
    ensures
        trailing_ws(s) == k,
    decreases k,
{
    if k > 0 {
        let t = s.drop_last();
        assert forall|j: int| t.len() - (k - 1) <= j < t.len() implies is_ws(#[trigger] t[j]) by {
            assert(t[j] == s[j]);
        }
        if k < s.len() {
            assert(t[t.len() - (k - 1) - 1] == s[s.len() - k - 1]);
        }
        lemma_trailing_ws(t, k - 1);
    }
}

// ---------------------------------------------------------------------------
// Exec helpers
// ---------------------------------------------------------------------------

/// Appends one character: `String::push`.
#[verifier::external_body]
pub fn push_char(s: &mut String, c: char)
    ensures
        final(s)@ == old(s)@.push(c),
{
    s.push(c);
}

/// The characters of a string, in order.
pub fn chars_of(s: &str) -> (r: Vec<char>)
    ensures
        r@ == s@,
{
    let n = s.unicode_len();
    let mut r: Vec<char> = Vec::new();
    let mut i: usize = 0;
    while i < n
        invariant
            n == s@.len(),
            i <= n,
            r@ == s@.take(i as int),
        decreases n - i,
    {
        let c = s.get_char(i);
        r.push(c);
        i = i + 1;
        assert(r@ =~= s@.take(i as int));
    }
    assert(r@ =~= s@);
    r
}

/// A string holding exactly the given characters.
pub fn string_of(v: &[char]) -> (r: String)
    ensures
        r@ == v@,
{
    let mut r = String::new();
    let mut i: usize = 0;
    while i < v.len()
        invariant
            i <= v.len(),
            r@ == v@.take(i as int),
        decreases v.len() - i,
    {
        push_char(&mut r, v[i]);
        i = i + 1;
        assert(r@ =~= v@.take(i as int));
    }
    assert(r@ =~= v@);
    r
}

/// Appends the given characters to a string.
pub fn push_chars(s: &mut String, v: &[char])
    ensures
        final(s)@ == old(s)@ + v@,
{
    let ghost start = s@;
    let mut i: usize = 0;
    while i < v.len()
        invariant
            i <= v.len(),
            s@ == start + v@.take(i as int),
        decreases v.len() - i,
    {
        push_char(s, v[i]);
        i = i + 1;
        assert(s@ =~= start + v@.take(i as int));
    }
    assert(v@.take(v.len() as int) =~= v@);
}

pub fn is_whitespace(c: char) -> (r: bool)
    ensures
        r == is_ws(c),
{
    let u = c as u32;
    (0x09 <= u && u <= 0x0D) || u == 0x20 || u == 0x85 || u == 0xA0 || u == 0x1680 || (0x2000
        <= u && u <= 0x200A) || u == 0x2028 || u == 0x2029 || u == 0x202F || u == 0x205F || u
        == 0x3000
}

pub fn is_upper(c: char) -> (r: bool)
    ensures
        r == is_ascii_upper(c),
{
    let u = c as u32;
    65 <= u && u <= 90
}

pub fn is_lower(c: char) -> (r: bool)
    ensures
        r == is_ascii_lower(c),
{
    let u = c as u32;
    97 <= u && u <= 122
}

pub fn is_digit(c: char) -> (r: bool)
    ensures
        r == is_ascii_digit(c),
{
    let u = c as u32;
    48 <= u && u <= 57
}

pub fn is_alpha(c: char) -> (r: bool)
    ensures
        r == is_ascii_alpha(c),
{
    is_upper(c) || is_lower(c)
}

pub fn is_alnum(c: char) -> (r: bool)
    ensures
        r == is_ascii_alnum(c),
{
    is_alpha(c) || is_digit(c)
}

pub fn fold_char(c: char) -> (r: u32)
    ensures
        r as int == fold(c),
{
    let u = c as u32;
    if 65 <= u && u <= 90 {
        u + 32
    } else {
        u
    }
}

/// `eq_ignore_ascii_case` over characters.
pub fn eq_ignore_case_chars(a: &[char], b: &[char]) -> (r: bool)
    ensures
        r == eq_ic(a@, b@),
{
    if a.len() != b.len() {
        return false;
    }
    let mut i: usize = 0;
    while i < a.len()
        invariant
            a.len() == b.len(),
            i <= a.len(),
            forall|j: int| 0 <= j < i ==> #[trigger] fold(a@[j]) == fold(b@[j]),
        decreases a.len() - i,
    {
        if fold_char(a[i]) != fold_char(b[i]) {
            return false;
        }
        i = i + 1;
    }
    true
}

/// `str::eq_ignore_ascii_case`.
pub fn eq_ignore_case(a: &str, b: &str) -> (r: bool)
    ensures
        r == eq_ic(a@, b@),
{
    let x = chars_of(a);
    let y = chars_of(b);
    eq_ignore_case_chars(x.as_slice(), y.as_slice())
}

/// First index of `c` in `v`.
pub fn find_char(v: &[char], c: char) -> (r: Option<usize>)
    ensures
        match r {
            Some(i) => find(v@, c) == i,
            None => find(v@, c) == -1,
        },
{
    let mut i: usize = 0;
    while i < v.len()
        invariant
            i <= v.len(),
            forall|j: int| 0 <= j < i ==> v@[j] != c,
        decreases v.len() - i,
    {
        if v[i] == c {
            proof {
                lemma_find_first(v@, c, i as int);
            }
            return Some(i);
        }
        i = i + 1;
    }
    proof {
        lemma_find_first(v@, c, v.len() as int);
    }
    None
}

/// Copies `v[from..to]`.
pub fn slice_chars(v: &[char], from: usize, to: usize) -> (r: Vec<char>)
    requires
        from <= to <= v.len(),
    ensures
        r@ == v@.subrange(from as int, to as int),
{
    let mut r: Vec<char> = Vec::new();
    let mut i: usize = from;
    while i < to
        invariant
            from <= i <= to,
            to <= v.len(),
            r@ == v@.subrange(from as int, i as int),
        decreases to - i,
    {
        r.push(v[i]);
        i = i + 1;
        assert(r@ =~= v@.subrange(from as int, i as int));
    }
    r
}

/// `split_once` over characters.
pub fn split_once_chars(v: &[char], sep: char) -> (r: Option<(Vec<char>, Vec<char>)>)
    ensures
        match r {
            Some((a, b)) => split_once(v@, sep) == Some((a@, b@)),
            None => split_once(v@, sep) is None,
        },
{
    match find_char(v, sep) {
        Some(i) => {
            proof {
                lemma_find(v@, sep);
                assert(find(v@, sep) == i as int);
            }
            assert(i < v.len());
            let a = slice_chars(v, 0, i);
            let b = slice_chars(v, i + 1, v.len());
            assert(a@ =~= v@.take(i as int));
            assert(b@ =~= v@.skip(i + 1));
            Some((a, b))
        },
        None => None,
    }
}

/// `split` over characters.
pub fn split_chars(v: &[char], sep: char) -> (r: Vec<Vec<char>>)
    ensures
        r@.len() == split(v@, sep).len(),
        forall|k: int| 0 <= k < r@.len() ==> #[trigger] r@[k]@ == split(v@, sep)[k],
{
    let mut done: Vec<Vec<char>> = Vec::new();
    let mut cur: Vec<char> = Vec::new();
    let mut i: usize = 0;
    assert(v@.take(0) =~= Seq::<char>::empty());
    while i < v.len()
        invariant
            i <= v.len(),
            done@.len() + 1 == split(v@.take(i as int), sep).len(),
            forall|k: int|
                0 <= k < done@.len() ==> #[trigger] done@[k]@ == split(v@.take(i as int), sep)[k],
            cur@ == split(v@.take(i as int), sep).last(),
        decreases v.len() - i,
    {
        let ghost prev = v@.take(i as int);
        assert(v@.take(i + 1).drop_last() =~= prev);
        assert(v@.take(i + 1).last() == v@[i as int]);
        if v[i] == sep {
            let piece = cur;
            done.push(piece);
            cur = Vec::new();
        } else {
            cur.push(v[i]);
        }
        i = i + 1;
    }
    assert(v@.take(v.len() as int) =~= v@);
    let ghost before = done@;
    done.push(cur);
    assert forall|k: int| 0 <= k < done@.len() implies #[trigger] done@[k]@ == split(v@, sep)[k] by {
        if k < before.len() {
            assert(done@[k] == before[k]);
        }
    }
    done
}

/// `str::trim` over characters.
pub fn trim_chars(v: &[char]) -> (r: Vec<char>)
    ensures
        r@ == trim(v@),
{
    let mut a: usize = 0;
    while a < v.len() && is_whitespace(v[a])
        invariant
            a <= v.len(),
            forall|j: int| 0 <= j < a ==> is_ws(#[trigger] v@[j]),
        decreases v.len() - a,
    {
        a = a + 1;
    }
    proof {
        lemma_leading_ws(v@, a as int);
    }
    let ghost t = v@.skip(a as int);
    let mut b: usize = v.len();
    while b > a && is_whitespace(v[b - 1])
        invariant
            a <= b <= v.len(),
            t == v@.skip(a as int),
            forall|j: int| b <= j < v.len() ==> is_ws(#[trigger] v@[j]),
        decreases b - a,
    {
        b = b - 1;
    }
    proof {
        let k = (v.len() - b) as int;
        assert forall|j: int| t.len() - k <= j < t.len() implies is_ws(#[trigger] t[j]) by {
            assert(t[j] == v@[j + a]);
        }
        if k < t.len() {
            assert(t[t.len() - k - 1] == v@[b - 1]);
        }
        lemma_trailing_ws(t, k);
    }
    let r = slice_chars(v, a, b);
    assert(r@ =~= t.take(t.len() - trailing_ws(t)));
    r
}

/// `str::trim` on a string.
pub fn trim_str(s: &str) -> (r: Vec<char>)
    ensures
        r@ == trim(s@),
{
    let v = chars_of(s);
    trim_chars(v.as_slice())
}

/// Whether `v` starts with `p`.
pub fn starts_with_chars(v: &[char], p: &[char]) -> (r: bool)
    ensures
        r == starts_with(v@, p@),
{
    if p.len() > v.len() {
        return false;
    }
    let mut i: usize = 0;
    while i < p.len()
        invariant
            p.len() <= v.len(),
            i <= p.len(),
            forall|j: int| 0 <= j < i ==> v@[j] == p@[j],
        decreases p.len() - i,
    {
        if v[i] != p[i] {
            assert(v@.take(p.len() as int)[i as int] != p@[i as int]);
            return false;
        }
        i = i + 1;
    }
    assert(v@.take(p.len() as int) =~= p@);
    true
}

/// Whether some character is whitespace.
pub fn contains_whitespace(v: &[char]) -> (r: bool)
    ensures
        r == has_ws(v@),
{
    let mut i: usize = 0;
    while i < v.len()
        invariant
            i <= v.len(),
            forall|j: int| 0 <= j < i ==> !is_ws(#[trigger] v@[j]),
        decreases v.len() - i,
    {
        if is_whitespace(v[i]) {
            return true;
        }
        i = i + 1;
    }
    false
}

/// The character of a decimal digit.
pub fn digit(d: usize) -> (c: char)
    requires
        d < 10,
    ensures
        c == digit_char(d as nat),
{
    match d {
        0 => '0',
        1 => '1',
        2 => '2',
        3 => '3',
        4 => '4',
        5 => '5',
        6 => '6',
        7 => '7',
        8 => '8',
        _ => '9',
    }
}

/// Appends the decimal representation of `n`.
pub fn push_decimal(s: &mut String, n: usize)
    ensures
        final(s)@ == old(s)@ + decimal(n as nat),
    decreases n,
{
    if n >= 10 {
        push_decimal(s, n / 10);
    }
    push_char(s, digit(n % 10));
    assert(final(s)@ =~= old(s)@ + decimal(n as nat)) by {
        if n >= 10 {
            assert(decimal(n as nat) == decimal((n / 10) as nat).push(digit_char((n % 10) as nat)));
        }
    }
}


/// String equality by content.
pub fn eq_chars(a: &str, b: &str) -> (r: bool)
    ensures
        r == (a@ == b@),
{
    let x = chars_of(a);
    let y = chars_of(b);
    if x.len() != y.len() {
        return false;
    }
    let mut i: usize = 0;
    while i < x.len()
        invariant
            x.len() == y.len(),
            x@ == a@,
            y@ == b@,
            i <= x.len(),
            forall|j: int| 0 <= j < i ==> x@[j] == y@[j],
        decreases x.len() - i,
    {
        if x[i] != y[i] {
            assert(x@[i as int] != y@[i as int]);
            return false;
        }
        i = i + 1;
    }
    assert(x@ =~= y@);
    true
}


/// Number of leading `c` characters.
pub open spec fn leading_char(s: Seq<char>, c: char) -> nat
    decreases s.len(),
{
    if s.len() == 0 {
        0
    } else if s[0] == c {
        1 + leading_char(s.drop_first(), c)
    } else {
        0
    }
}

/// Number of trailing `c` characters.
pub open spec fn trailing_char(s: Seq<char>, c: char) -> nat
    decreases s.len(),
{
    if s.len() == 0 {
        0
    } else if s.last() == c {
        1 + trailing_char(s.drop_last(), c)
    } else {
        0
    }
}

/// `str::trim_matches` with a single character.
pub open spec fn trim_char(s: Seq<char>, c: char) -> Seq<char> {
    let t = s.skip(leading_char(s, c) as int);
    t.take(t.len() - trailing_char(t, c))
}

pub proof fn lemma_leading_char(s: Seq<char>, c: char, k: int)
    requires
        0 <= k <= s.len(),
        forall|j: int| 0 <= j < k ==> #[trigger] s[j] == c,
        k < s.len() ==> s[k] != c,
    ensures
        leading_char(s, c) == k,
    decreases k,
{
    if k > 0 {
        let t = s.drop_first();
        assert forall|j: int| 0 <= j < k - 1 implies #[trigger] t[j] == c by {
            assert(t[j] == s[j + 1]);
        }
        if k < s.len() {
            assert(t[k - 1] == s[k]);
        }
        lemma_leading_char(t, c, k - 1);
    }
}

pub proof fn lemma_trailing_char(s: Seq<char>, c: char, k: int)
    requires
        0 <= k <= s.len(),
        forall|j: int| s.len() - k <= j < s.len() ==> #[trigger] s[j] == c,
        k < s.len() ==> s[s.len() - k - 1] != c,
    ensures
        trailing_char(s, c) == k,
    decreases k,
{
    if k > 0 {
        let t = s.drop_last();
        assert forall|j: int| t.len() - (k - 1) <= j < t.len() implies #[trigger] t[j] == c by {
            assert(t[j] == s[j]);
        }
        if k < s.len() {
            assert(t[t.len() - (k - 1) - 1] == s[s.len() - k - 1]);
        }
        lemma_trailing_char(t, c, k - 1);
    }
}

/// `trim_matches` with a single character, over characters.
pub fn trim_char_chars(v: &[char], c: char) -> (r: Vec<char>)
    ensures
        r@ == trim_char(v@, c),
{
    let mut a: usize = 0;
    while a < v.len() && v[a] == c
        invariant
            a <= v.len(),
            forall|j: int| 0 <= j < a ==> #[trigger] v@[j] == c,
        decreases v.len() - a,
    {
        a = a + 1;
    }
    proof {
        lemma_leading_char(v@, c, a as int);
    }
    let ghost t = v@.skip(a as int);
    let mut b: usize = v.len();
    while b > a && v[b - 1] == c
        invariant
            a <= b <= v.len(),
            t == v@.skip(a as int),
            forall|j: int| b <= j < v.len() ==> #[trigger] v@[j] == c,
        decreases b - a,
    {
        b = b - 1;
    }
    proof {
        let k = (v.len() - b) as int;
        assert forall|j: int| t.len() - k <= j < t.len() implies #[trigger] t[j] == c by {
            assert(t[j] == v@[j + a]);
        }
        if k < t.len() {
            assert(t[t.len() - k - 1] == v@[b - 1]);
        }
        lemma_trailing_char(t, c, k);
    }
    let r = slice_chars(v, a, b);
    assert(r@ =~= t.take(t.len() - trailing_char(t, c)));
    r
}

/// The first piece of `split`: the text before the first separator.
pub fn first_piece(v: &[char], sep: char) -> (r: Vec<char>)
    ensures
        r@ == split(v@, sep)[0],
{
    let pieces = split_chars(v, sep);
    proof {
        lemma_split_nonempty(v@, sep);
    }
    let p = &pieces[0];
    slice_chars(p.as_slice(), 0, p.len())
}

/// `split_once` cuts at the first separator.
pub proof fn lemma_split_once(s: Seq<char>, c: char)
    ensures
        split_once(s, c) is None <==> !s.contains(c),
        split_once(s, c) matches Some((a, b)) ==> s == a + seq![c] + b && !a.contains(c),
{
    lemma_find(s, c);
    if let Some((a, b)) = split_once(s, c) {
        let i = find(s, c);
        assert(s =~= a + seq![c] + b);
        assert forall|j: int| 0 <= j < a.len() implies a[j] != c by {
            assert(a[j] == s[j]);
        }
    }
}

/// Splitting `a`, the separator and `b` at the first separator gives back
/// `a` and `b` when `a` holds no separator.
pub proof fn lemma_split_once_concat(a: Seq<char>, c: char, b: Seq<char>)
    requires
        !a.contains(c),
    ensures
        split_once(a + seq![c] + b, c) == Some((a, b)),
{
    let s = a + seq![c] + b;
    assert forall|j: int| 0 <= j < a.len() implies s[j] != c by {
        assert(s[j] == a[j]);
        if a[j] == c {
            assert(a.contains(c));
        }
    }
    lemma_find_first(s, c, a.len() as int);
    assert(s.take(a.len() as int) =~= a);
    assert(s.skip(a.len() as int + 1) =~= b);
}

/// Appending characters other than the separator extends the last piece.
pub proof fn lemma_split_append(s: Seq<char>, y: Seq<char>, sep: char)
    requires
        !y.contains(sep),
    ensures
        split(s + y, sep) == split(s, sep).update(
            split(s, sep).len() - 1,
            split(s, sep).last() + y,
        ),
    decreases y.len(),
{
    lemma_split_nonempty(s, sep);
    if y.len() == 0 {
        assert(s + y =~= s);
        assert(split(s, sep).last() + y =~= split(s, sep).last());
        assert(split(s, sep).update(split(s, sep).len() - 1, split(s, sep).last()) =~= split(s, sep));
    } else {
        let y1 = y.drop_last();
        assert forall|c: char| y1.contains(c) implies y.contains(c) by {
            let k = choose|k: int| 0 <= k < y1.len() && y1[k] == c;
            assert(y[k] == c);
        }
        lemma_split_append(s, y1, sep);
        assert((s + y).drop_last() =~= s + y1);
        assert(y[y.len() - 1] == y.last());
        assert((s + y).last() == y.last());
        assert(y.last() != sep);
        let big = split(s, sep);
        let pp = split(s + y1, sep);
        assert(pp.len() == big.len());
        assert(pp.last() == big.last() + y1);
        assert(split(s + y, sep) == pp.update(pp.len() - 1, pp.last().push(y.last())));
        assert((big.last() + y1).push(y.last()) =~= big.last() + y);
        assert(split(s + y, sep) =~= split(s, sep).update(
            split(s, sep).len() - 1,
            split(s, sep).last() + y,
        ));
    }
}

/// The pieces of a split hold no separator, only characters of the string.
pub proof fn lemma_split_pieces(s: Seq<char>, sep: char)
    ensures
        forall|k: int, m: int|
            0 <= k < split(s, sep).len() && 0 <= m < split(s, sep)[k].len() ==> #[trigger] split(s, sep)[k][m]
                != sep && s.contains(split(s, sep)[k][m]),
    decreases s.len(),
{
    lemma_split_nonempty(s, sep);
    if s.len() > 0 {
        let q = s.drop_last();
        lemma_split_pieces(q, sep);
        lemma_split_nonempty(q, sep);
        let pq = split(q, sep);
        let ps = split(s, sep);
        assert forall|k: int, m: int| 0 <= k < ps.len() && 0 <= m < ps[k].len() implies #[trigger] ps[k][m]
            != sep && s.contains(ps[k][m]) by {
            if k < pq.len() && m < pq[k].len() {
                assert(ps[k][m] == pq[k][m]);
                let j = choose|j: int| 0 <= j < q.len() && q[j] == pq[k][m];
                assert(s[j] == q[j]);
            } else {
                assert(ps[k][m] == s.last());
                assert(s[s.len() - 1] == s.last());
            }
        }
    }
}

/// Splitting pieces joined by the separator gives the pieces back, when no
/// piece holds the separator.
pub proof fn lemma_split_join(ps: Seq<Seq<char>>, sep: char)
    requires
        ps.len() >= 1,
        forall|k: int| 0 <= k < ps.len() ==> !(#[trigger] ps[k]).contains(sep),
    ensures
        split(join(ps, sep), sep) == ps,
    decreases ps.len(),
{
    if ps.len() == 1 {
        lemma_split_append(Seq::<char>::empty(), ps[0], sep);
        assert(Seq::<char>::empty() + ps[0] =~= ps[0]);
        assert(Seq::<char>::empty() + ps[0] =~= ps[0]);
        assert(split(ps[0], sep) =~= ps);
    } else {
        let q = ps.drop_last();
        assert(forall|k: int| 0 <= k < q.len() ==> q[k] == ps[k]);
        lemma_split_join(q, sep);
        let jq = join(q, sep);
        let l = ps.last();
        assert(ps[ps.len() - 1] == l);
        lemma_split_append(jq.push(sep), l, sep);
        assert(jq.push(sep).drop_last() =~= jq);
        lemma_split_nonempty(jq, sep);
        assert(split(jq.push(sep), sep) =~= q.push(Seq::<char>::empty()));
        assert(Seq::<char>::empty() + l =~= l);
        assert(split(join(ps, sep), sep) =~= ps);
    }
}

/// Each character of a join is the separator or a character of a piece.
pub proof fn lemma_join_chars(ps: Seq<Seq<char>>, sep: char, x: char)
    requires
        join(ps, sep).contains(x),
        x != sep,
    ensures
        exists|k: int| 0 <= k < ps.len() && (#[trigger] ps[k]).contains(x),
    decreases ps.len(),
{
    if ps.len() == 1 {
        assert(ps[0].contains(x));
    } else if ps.len() > 1 {
        let q = ps.drop_last();
        let jq = join(q, sep);
        let i = choose|i: int| 0 <= i < join(ps, sep).len() && join(ps, sep)[i] == x;
        if i < jq.len() {
            assert(jq[i] == x);
            lemma_join_chars(q, sep, x);
            let k = choose|k: int| 0 <= k < q.len() && (#[trigger] q[k]).contains(x);
            assert(ps[k] == q[k]);
        } else {
            assert(i > jq.len());
            assert(ps.last()[i - jq.len() - 1] == x);
            assert(ps[ps.len() - 1].contains(x));
        }
    }
}

/// Whether `t` occurs in `s` as a contiguous part.
pub open spec fn contains_seq(s: Seq<char>, t: Seq<char>) -> bool {
    exists|k: int| 0 <= k && k + t.len() <= s.len() && #[trigger] s.subrange(k, k + t.len()) == t
}

/// A part of `b` is a part of `a + b + c`; a prefix of `s` is a part of it.
pub proof fn lemma_contains_seq(a: Seq<char>, b: Seq<char>, c: Seq<char>, t: Seq<char>)
    ensures
        contains_seq(b, t) ==> contains_seq(a + b + c, t),
        starts_with(b, t) ==> contains_seq(b, t),
{
    if contains_seq(b, t) {
        let k = choose|k: int| 0 <= k && k + t.len() <= b.len() && #[trigger] b.subrange(k, k + t.len()) == t;
        let s = a + b + c;
        assert(s.subrange(a.len() + k, a.len() + k + t.len()) =~= b.subrange(k, k + t.len()));
    }
    if starts_with(b, t) {
        assert(b.subrange(0, 0 + t.len() as int) =~= t);
        assert(0 + t.len() <= b.len());
    }
}

/// A part stays a part when text is added on either side; a text is a
/// part of itself.
pub proof fn lemma_contains_extend(s: Seq<char>, u: Seq<char>, t: Seq<char>)
    ensures
        contains_seq(s, t) ==> contains_seq(s + u, t) && contains_seq(u + s, t),
        contains_seq(t, t),
{
    lemma_contains_seq(Seq::<char>::empty(), s, u, t);
    assert(Seq::<char>::empty() + s + u =~= s + u);
    lemma_contains_seq(u, s, Seq::<char>::empty(), t);
    assert(u + s + Seq::<char>::empty() =~= u + s);
    assert(t.subrange(0, 0 + t.len() as int) =~= t);
}

pub proof fn lemma_split_nonempty(s: Seq<char>, sep: char)
    ensures
        split(s, sep).len() >= 1,
    decreases s.len(),
{
    if s.len() > 0 {
        lemma_split_nonempty(s.drop_last(), sep);
    }
}

} // verus!
