//! Character-level helpers shared by the query parser, the variable
//! resolver, and the JSON renderer.

use vstd::prelude::*;

verus! {

/// A character that may start a variable or identifier name: `[A-Za-z_]`.
pub open spec fn spec_is_name_start(c: char) -> bool {
    (65 <= c as u32 && c as u32 <= 90) || (97 <= c as u32 && c as u32 <= 122) || c == '_'
}

/// A character that may continue a variable name: `[A-Za-z0-9_]`.
pub open spec fn spec_is_name_continue(c: char) -> bool {
    spec_is_name_start(c) || (48 <= c as u32 && c as u32 <= 57)
}

/// An ASCII decimal digit.
pub open spec fn spec_is_digit(c: char) -> bool {
    48 <= c as u32 && c as u32 <= 57
}

/// ASCII whitespace, as the query grammar skips it between tokens.
pub open spec fn spec_is_space(c: char) -> bool {
    c == ' ' || c == '\t' || c == '\n' || c == '\r' || c as u32 == 12
}

pub fn is_name_start(c: char) -> (r: bool)
    ensures
        r == spec_is_name_start(c),
{
    let u = c as u32;
    (65 <= u && u <= 90) || (97 <= u && u <= 122) || c == '_'
}

pub fn is_name_continue(c: char) -> (r: bool)
    ensures
        r == spec_is_name_continue(c),
{
    let u = c as u32;
    is_name_start(c) || (48 <= u && u <= 57)
}

pub fn is_digit_char(c: char) -> (r: bool)
    ensures
        r == spec_is_digit(c),
{
    let u = c as u32;
    48 <= u && u <= 57
}

pub fn is_space_char(c: char) -> (r: bool)
    ensures
        r == spec_is_space(c),
{
    c == ' ' || c == '\t' || c == '\n' || c == '\r' || c as u32 == 12
}

/// Copies the characters of a string slice into a vector, in order.
pub fn str_to_chars(s: &str) -> (r: Vec<char>)
    ensures
        r@ == s@,
{
    let n = s.unicode_len();
    let mut r: Vec<char> = Vec::new();
    let mut i: usize = 0;
    while i < n
        invariant
            n == s@.len(),
            i <= n,
            r@ == s@.subrange(0, i as int),
        decreases n - i,
    {
        r.push(s.get_char(i));
        proof {
            assert(r@ =~= s@.subrange(0, i + 1 as int));
        }
        i += 1;
    }
    proof {
        assert(r@ =~= s@);
    }
    r
}

/// Relies on std's `FromIterator` for `String`: collecting characters
/// yields the string holding exactly those characters in order.
#[verifier::external_body]
pub(crate) fn chars_to_string(v: &Vec<char>) -> (r: String)
    ensures
        r@ == v@,
{
    v.iter().collect()
}

/// Strict lexicographic order on character sequences, by code point.
/// For valid UTF-8 this agrees with the byte-wise order on the encoded
/// strings, so it matches the order a sorted map over `String` keys uses.
pub open spec fn chars_lt(a: Seq<char>, b: Seq<char>) -> bool
    decreases a.len(),
{
    if b.len() == 0 {
        false
    } else if a.len() == 0 {
        true
    } else if (a[0] as u32) < (b[0] as u32) {
        true
    } else if a[0] == b[0] {
        chars_lt(a.skip(1), b.skip(1))
    } else {
        false
    }
}

/// Exactly one of `chars_lt(a, b)`, `a == b`, `chars_lt(b, a)` holds.
pub proof fn lemma_chars_lt_trichotomy(a: Seq<char>, b: Seq<char>)
    ensures
        chars_lt(a, b) || a == b || chars_lt(b, a),
        chars_lt(a, b) ==> a != b && !chars_lt(b, a),
        a == b ==> !chars_lt(a, b) && !chars_lt(b, a),
    decreases a.len(),
{
    if a.len() == 0 || b.len() == 0 {
        if a.len() == b.len() {
            assert(a =~= b);
        }
    } else {
        if (a[0] as u32) == (b[0] as u32) {
            vstd::utf8::char_u32_cast(a[0], a[0] as u32);
            vstd::utf8::char_u32_cast(b[0], b[0] as u32);
            assert(a[0] == b[0]);
        }
        if a[0] == b[0] {
            lemma_chars_lt_trichotomy(a.skip(1), b.skip(1));
            if a.skip(1) == b.skip(1) {
                assert(a.skip(1).len() == b.skip(1).len());
                assert forall|k: int| 0 <= k < a.len() implies a[k] == b[k] by {
                    if k > 0 {
                        assert(a.skip(1)[k - 1] == b.skip(1)[k - 1]);
                    }
                }
                assert(a =~= b);
            }
            if a == b {
                assert(a.skip(1) =~= b.skip(1));
            }
        }
    }
}

pub proof fn lemma_chars_lt_trans(a: Seq<char>, b: Seq<char>, c: Seq<char>)
    requires
        chars_lt(a, b),
        chars_lt(b, c),
    ensures
        chars_lt(a, c),
    decreases a.len(),
{
    if a.len() == 0 {
        assert(b.len() > 0);
        assert(c.len() > 0);
    } else {
        assert(b.len() > 0 && c.len() > 0);
        if a[0] == b[0] && b[0] == c[0] {
            lemma_chars_lt_trans(a.skip(1), b.skip(1), c.skip(1));
        }
    }
}

/// Compares two string slices in the order of `chars_lt`.
pub fn str_lt(a: &str, b: &str) -> (r: bool)
    ensures
        r == chars_lt(a@, b@),
{
    let na = a.unicode_len();
    let nb = b.unicode_len();
    let mut i: usize = 0;
    proof {
        assert(a@.skip(0) =~= a@);
        assert(b@.skip(0) =~= b@);
    }
    loop
        invariant
            na == a@.len(),
            nb == b@.len(),
            i <= na,
            i <= nb,
            forall|j: int| 0 <= j < i ==> a@[j] == b@[j],
            chars_lt(a@, b@) == chars_lt(a@.skip(i as int), b@.skip(i as int)),
        decreases na - i,
    {
        if i >= nb {
            proof {
                assert(!chars_lt(a@.skip(i as int), b@.skip(i as int)));
            }
            return false;
        }
        if i >= na {
            proof {
                assert(chars_lt(a@.skip(i as int), b@.skip(i as int)));
            }
            return true;
        }
        let ca = a.get_char(i);
        let cb = b.get_char(i);
        proof {
            assert(a@.skip(i as int)[0] == a@[i as int]);
            assert(b@.skip(i as int)[0] == b@[i as int]);
        }
        if (ca as u32) < (cb as u32) {
            return true;
        }
        if ca != cb {
            proof {
                assert(!((a@.skip(i as int)[0] as u32) < (b@.skip(i as int)[0] as u32)));
            }
            return false;
        }
        proof {
            assert(a@.skip(i as int).skip(1) =~= a@.skip(i + 1));
            assert(b@.skip(i as int).skip(1) =~= b@.skip(i + 1));
        }
        i += 1;
    }
}

/// Compares two string slices character by character.
pub fn str_eq(a: &str, b: &str) -> (r: bool)
    ensures
        r == (a@ == b@),
{
    let na = a.unicode_len();
    let nb = b.unicode_len();
    if na != nb {
        proof {
            assert(a@ != b@) by {
                if a@ == b@ {
                    assert(a@.len() == b@.len());
                }
            }
        }
        return false;
    }
    let mut i: usize = 0;
    while i < na
        invariant
            na == a@.len(),
            na == b@.len(),
            i <= na,
            forall|j: int| 0 <= j < i ==> a@[j] == b@[j],
        decreases na - i,
    {
        if a.get_char(i) != b.get_char(i) {
            proof {
                assert(a@[i as int] != b@[i as int]);
            }
            return false;
        }
        i += 1;
    }
    proof {
        assert(a@ =~= b@);
    }
    true
}

/// Copies `v[a..b]` into a fresh string.
pub fn range_to_string(v: &Vec<char>, a: usize, b: usize) -> (r: String)
    requires
        a <= b <= v@.len(),
    ensures
        r@ == v@.subrange(a as int, b as int),
{
    let mut out: Vec<char> = Vec::new();
    let mut j = a;
    while j < b
        invariant
            a <= j <= b <= v@.len(),
            out@ == v@.subrange(a as int, j as int),
        decreases b - j,
    {
        out.push(v[j]);
        proof {
            assert(out@ =~= v@.subrange(a as int, j + 1 as int));
        }
        j += 1;
    }
    chars_to_string(&out)
}

/// A strictly sorted sequence of names: sorted by `chars_lt`, hence free of
/// duplicates. This is the shape a name set keeps so that iteration order is
/// deterministic.
pub open spec fn strs_sorted(s: Seq<Seq<char>>) -> bool {
    forall|i: int, j: int| 0 <= i < j < s.len() ==> chars_lt(s[i], s[j])
}

/// Inserts a name into a sorted sequence, keeping order and uniqueness.
pub open spec fn strs_insert(s: Seq<Seq<char>>, x: Seq<char>) -> Seq<Seq<char>>
    decreases s.len(),
{
    if s.len() == 0 {
        seq![x]
    } else if chars_lt(x, s[0]) {
        seq![x] + s
    } else if x == s[0] {
        s
    } else {
        seq![s[0]] + strs_insert(s.skip(1), x)
    }
}

pub proof fn lemma_strs_insert_sorted(s: Seq<Seq<char>>, x: Seq<char>)
    requires
        strs_sorted(s),
    ensures
        strs_sorted(strs_insert(s, x)),
        strs_insert(s, x).contains(x),
        forall|y: Seq<char>| s.contains(y) ==> strs_insert(s, x).contains(y),
        forall|y: Seq<char>| strs_insert(s, x).contains(y) ==> s.contains(y) || y == x,
        s.len() <= strs_insert(s, x).len() <= s.len() + 1,
    decreases s.len(),
{
    lemma_chars_lt_trichotomy(x, if s.len() == 0 { Seq::empty() } else { s[0] });
    if s.len() == 0 {
        assert(strs_insert(s, x) =~= seq![x]);
        assert(strs_insert(s, x)[0] == x);
    } else if chars_lt(x, s[0]) {
        let r = seq![x] + s;
        assert forall|i: int, j: int| 0 <= i < j < r.len() implies chars_lt(r[i], r[j]) by {
            if i == 0 {
                if j > 1 {
                    lemma_chars_lt_trans(x, s[0], s[j - 1]);
                }
            }
        }
        assert(r[0] == x);
        assert forall|y: Seq<char>| s.contains(y) implies r.contains(y) by {
            let k = choose|k: int| 0 <= k < s.len() && s[k] == y;
            assert(r[k + 1] == y);
        }
        assert forall|y: Seq<char>| r.contains(y) implies s.contains(y) || y == x by {
            let k = choose|k: int| 0 <= k < r.len() && r[k] == y;
            if k > 0 {
                assert(s[k - 1] == y);
            }
        }
    } else if x == s[0] {
        assert(s.contains(x)) by {
            assert(s[0] == x);
        }
    } else {
        assert(chars_lt(s[0], x));
        let tail = s.skip(1);
        assert(strs_sorted(tail)) by {
            assert(forall|i: int, j: int|
                0 <= i < j < tail.len() ==> tail[i] == s[i + 1] && tail[j] == s[j + 1]);
        }
        lemma_strs_insert_sorted(tail, x);
        let rt = strs_insert(tail, x);
        let r = seq![s[0]] + rt;
        assert(strs_insert(s, x) == r);
        assert forall|i: int, j: int| 0 <= i < j < r.len() implies chars_lt(r[i], r[j]) by {
            if i == 0 {
                let y = rt[j - 1];
                assert(r[j] == y);
                assert(rt.contains(y)) by {
                    assert(rt[j - 1] == y);
                }
                if y == x {
                    assert(chars_lt(s[0], x));
                } else {
                    assert(tail.contains(y));
                    let k = choose|k: int| 0 <= k < tail.len() && tail[k] == y;
                    assert(tail[k] == s[k + 1]);
                    assert(chars_lt(s[0], s[k + 1]));
                }
            } else {
                assert(r[i] == rt[i - 1] && r[j] == rt[j - 1]);
            }
        }
        assert(r.contains(x)) by {
            let k = choose|k: int| 0 <= k < rt.len() && rt[k] == x;
            assert(r[k + 1] == x);
        }
        assert forall|y: Seq<char>| s.contains(y) implies r.contains(y) by {
            let k = choose|k: int| 0 <= k < s.len() && s[k] == y;
            if k == 0 {
                assert(r[0] == y);
            } else {
                assert(tail[k - 1] == y);
                assert(tail.contains(y));
                assert(rt.contains(y));
                let k2 = choose|k2: int| 0 <= k2 < rt.len() && rt[k2] == y;
                assert(r[k2 + 1] == y);
            }
        }
        assert forall|y: Seq<char>| r.contains(y) implies s.contains(y) || y == x by {
            let k = choose|k: int| 0 <= k < r.len() && r[k] == y;
            if k == 0 {
                assert(s[0] == y);
            } else {
                assert(rt[k - 1] == y);
                assert(rt.contains(y));
                if tail.contains(y) {
                    let k2 = choose|k2: int| 0 <= k2 < tail.len() && tail[k2] == y;
                    assert(s[k2 + 1] == y);
                }
            }
        }
    }
}

/// How `strs_insert` splits around the insertion point.
proof fn lemma_strs_insert_split(s: Seq<Seq<char>>, x: Seq<char>, p: int)
    requires
        0 <= p <= s.len(),
        forall|j: int| 0 <= j < p ==> chars_lt(#[trigger] s[j], x),
    ensures
        p < s.len() && x == s[p] ==> strs_insert(s, x) == s,
        (p == s.len() || chars_lt(x, s[p])) ==> strs_insert(s, x) == s.subrange(0, p)
            + seq![x] + s.skip(p),
    decreases p,
{
    if p == 0 {
        if s.len() > 0 && x == s[0] {
            assert(!chars_lt(x, s[0])) by {
                lemma_chars_lt_trichotomy(x, s[0]);
            }
        }
        if p == s.len() || chars_lt(x, s[p]) {
            assert(strs_insert(s, x) =~= s.subrange(0, 0) + seq![x] + s.skip(0));
        }
    } else {
        assert(chars_lt(s[0], x));
        assert(!chars_lt(x, s[0]) && x != s[0]) by {
            lemma_chars_lt_trichotomy(x, s[0]);
        }
        let tail = s.skip(1);
        assert(forall|j: int| 0 <= j < p - 1 ==> chars_lt(#[trigger] tail[j], x));
        lemma_strs_insert_split(tail, x, p - 1);
        if p < s.len() && x == s[p] {
            assert(tail[p - 1] == x);
            assert(strs_insert(s, x) =~= s) by {
                assert(strs_insert(tail, x) == tail);
            }
        }
        if p == s.len() || chars_lt(x, s[p]) {
            assert(strs_insert(s, x) =~= s.subrange(0, p) + seq![x] + s.skip(p)) by {
                assert(strs_insert(tail, x) == tail.subrange(0, p - 1) + seq![x] + tail.skip(
                    p - 1,
                ));
            }
        }
    }
}

/// The views of a vector of strings.
pub open spec fn strs_view(v: Seq<String>) -> Seq<Seq<char>> {
    Seq::new(v.len(), |i: int| v[i]@)
}

/// Inserts a name into a sorted vector of strings, keeping order and
/// uniqueness.
pub fn sorted_insert_str(v: &mut Vec<String>, x: String)
    ensures
        strs_view(final(v)@) == strs_insert(strs_view(old(v)@), x@),
{
    let ghost s0 = strs_view(v@);
    let ghost gx = x@;
    let mut i: usize = 0;
    loop
        invariant
            i <= v@.len(),
            s0 == strs_view(old(v)@),
            strs_view(v@) == s0,
            s0.len() == v@.len(),
            gx == x@,
            forall|j: int| 0 <= j < i ==> chars_lt(#[trigger] s0[j], gx),
        decreases v@.len() - i,
    {
        if i >= v.len() {
            proof {
                lemma_strs_insert_split(s0, gx, i as int);
            }
            v.push(x);
            proof {
                assert(strs_view(v@) =~= s0.subrange(0, s0.len() as int) + seq![gx] + s0.skip(
                    s0.len() as int,
                ));
            }
            return;
        }
        proof {
            assert(s0[i as int] == v@[i as int]@);
        }
        let is_lt = str_lt(x.as_str(), v[i].as_str());
        if is_lt {
            proof {
                lemma_strs_insert_split(s0, gx, i as int);
            }
            let ghost pre = v@;
            v.insert(i, x);
            proof {
                assert forall|m: int| 0 <= m < strs_view(v@).len() implies strs_view(v@)[m]
                    == (s0.subrange(0, i as int) + seq![gx] + s0.skip(i as int))[m] by {
                    if m < i as int {
                        assert(v@[m] == pre[m]);
                    } else if m > i as int {
                        assert(v@[m] == pre[m - 1]);
                    }
                }
                assert(strs_view(v@) =~= s0.subrange(0, i as int) + seq![gx] + s0.skip(i as int));
            }
            return;
        }
        let same = str_eq(x.as_str(), v[i].as_str());
        if same {
            proof {
                lemma_strs_insert_split(s0, gx, i as int);
            }
            return;
        }
        proof {
            lemma_chars_lt_trichotomy(gx, s0[i as int]);
        }
        i += 1;
    }
}

/// Whether `needle` occurs as a contiguous run inside `hay`.
pub open spec fn chars_contains(hay: Seq<char>, needle: Seq<char>) -> bool {
    exists|k: int|
        0 <= k && k + needle.len() <= hay.len() && #[trigger] hay.subrange(k, k + needle.len())
            == needle
}

/// Substring search, character by character.
pub fn str_contains(hay: &str, needle: &str) -> (r: bool)
    ensures
        r == chars_contains(hay@, needle@),
{
    let nh = hay.unicode_len();
    let nn = needle.unicode_len();
    if nn > nh {
        proof {
            assert(!chars_contains(hay@, needle@));
        }
        return false;
    }
    if nn == 0 {
        proof {
            assert(hay@.subrange(0, 0 + needle@.len() as int) =~= needle@);
            assert(chars_contains(hay@, needle@));
        }
        return true;
    }
    let mut k: usize = 0;
    loop
        invariant
            nh == hay@.len(),
            nn == needle@.len(),
            1 <= nn <= nh,
            k <= nh - nn + 1,
            forall|k2: int| 0 <= k2 < k ==> #[trigger] hay@.subrange(k2, k2 + needle@.len())
                != needle@,
        decreases nh - nn + 1 - k,
    {
        if k > nh - nn {
            proof {
                assert forall|k2: int|
                    !(0 <= k2 && k2 + needle@.len() <= hay@.len() && #[trigger] hay@.subrange(
                        k2,
                        k2 + needle@.len(),
                    ) == needle@) by {
                    if 0 <= k2 && k2 + needle@.len() <= hay@.len() {
                        assert(k2 < k);
                    }
                }
            }
            return false;
        }
        let mut j: usize = 0;
        let mut matched = true;
        while matched && j < nn
            invariant
                nh == hay@.len(),
                nn == needle@.len(),
                k + nn <= nh,
                j <= nn,
                matched ==> hay@.subrange(k as int, k + j as int) == needle@.subrange(
                    0,
                    j as int,
                ),
                !matched ==> hay@.subrange(k as int, k + nn as int) != needle@,
            decreases (if matched { 1int } else { 0int }), nn - j,
        {
            if hay.get_char(k + j) != needle.get_char(j) {
                proof {
                    assert(hay@.subrange(k as int, k + nn as int)[j as int] == hay@[k + j]);
                }
                matched = false;
            } else {
                proof {
                    assert(hay@.subrange(k as int, k + (j + 1) as int) =~= needle@.subrange(
                        0,
                        (j + 1) as int,
                    ));
                }
                j += 1;
            }
        }
        if matched {
            proof {
                assert(needle@.subrange(0, needle@.len() as int) =~= needle@);
                assert(hay@.subrange(k as int, k + needle@.len()) == needle@);
            }
            return true;
        }
        k += 1;
    }
}

/// The decimal digits of a nonnegative number, most significant first.
pub open spec fn dec_digit(d: int) -> char {
    if d == 0 { '0' }
    else if d == 1 { '1' }
    else if d == 2 { '2' }
    else if d == 3 { '3' }
    else if d == 4 { '4' }
    else if d == 5 { '5' }
    else if d == 6 { '6' }
    else if d == 7 { '7' }
    else if d == 8 { '8' }
    else { '9' }
}

pub open spec fn spec_dec_nat(n: nat) -> Seq<char>
    decreases n,
{
    if n < 10 {
        seq![dec_digit(n as int)]
    } else {
        spec_dec_nat(n / 10) + seq![dec_digit((n % 10) as int)]
    }
}

/// The decimal rendering of a signed number, as `i64::to_string` gives it.
pub open spec fn spec_dec_int(n: int) -> Seq<char> {
    if n < 0 {
        seq!['-'] + spec_dec_nat((-n) as nat)
    } else {
        spec_dec_nat(n as nat)
    }
}

fn dec_digit_char(d: u64) -> (c: char)
    requires
        d < 10,
    ensures
        c == dec_digit(d as int),
{
    if d == 0 { '0' }
    else if d == 1 { '1' }
    else if d == 2 { '2' }
    else if d == 3 { '3' }
    else if d == 4 { '4' }
    else if d == 5 { '5' }
    else if d == 6 { '6' }
    else if d == 7 { '7' }
    else if d == 8 { '8' }
    else { '9' }
}

/// The decimal digits of `n`, as characters.
pub fn dec_chars_u64(n: u64) -> (r: Vec<char>)
    ensures
        r@ == spec_dec_nat(n as nat),
    decreases n,
{
    if n < 10 {
        let mut r: Vec<char> = Vec::new();
        r.push(dec_digit_char(n));
        proof {
            assert(r@ =~= spec_dec_nat(n as nat));
        }
        r
    } else {
        let mut r = dec_chars_u64(n / 10);
        r.push(dec_digit_char(n % 10));
        proof {
            assert(r@ =~= spec_dec_nat((n / 10) as nat) + seq![dec_digit((n % 10) as int)]);
        }
        r
    }
}

/// The decimal rendering of a signed number, sign included.
pub fn dec_chars_i64(n: i64) -> (r: Vec<char>)
    ensures
        r@ == spec_dec_int(n as int),
{
    if n >= 0 {
        dec_chars_u64(n as u64)
    } else {
        let mag: u64 = if n == -9223372036854775808i64 {
            9223372036854775808u64
        } else {
            (-n) as u64
        };
        proof {
            assert(mag as nat == (-(n as int)) as nat);
        }
        let mut r: Vec<char> = Vec::new();
        r.push('-');
        let digits = dec_chars_u64(mag);
        let mut i: usize = 0;
        while i < digits.len()
            invariant
                i <= digits@.len(),
                r@ == seq!['-'] + digits@.subrange(0, i as int),
            decreases digits@.len() - i,
        {
            r.push(digits[i]);
            proof {
                assert(r@ =~= seq!['-'] + digits@.subrange(0, i + 1 as int));
            }
            i += 1;
        }
        proof {
            assert(digits@.subrange(0, digits@.len() as int) =~= digits@);
            assert(r@ =~= seq!['-'] + digits@);
        }
        r
    }
}

/// Appends all characters of `src` to `dst`.
pub fn append_chars(dst: &mut Vec<char>, src: &Vec<char>)
    ensures
        final(dst)@ == old(dst)@ + src@,
{
    let mut i: usize = 0;
    while i < src.len()
        invariant
            i <= src@.len(),
            dst@ == old(dst)@ + src@.subrange(0, i as int),
        decreases src@.len() - i,
    {
        dst.push(src[i]);
        proof {
            assert(dst@ =~= old(dst)@ + src@.subrange(0, i + 1 as int));
        }
        i += 1;
    }
    proof {
        assert(src@.subrange(0, src@.len() as int) =~= src@);
    }
}

/// Appends the characters of a string slice to `dst`.
pub fn append_str(dst: &mut Vec<char>, src: &str)
    ensures
        final(dst)@ == old(dst)@ + src@,
{
    let n = src.unicode_len();
    let mut i: usize = 0;
    while i < n
        invariant
            n == src@.len(),
            i <= n,
            dst@ == old(dst)@ + src@.subrange(0, i as int),
        decreases n - i,
    {
        dst.push(src.get_char(i));
        proof {
            assert(dst@ =~= old(dst)@ + src@.subrange(0, i + 1 as int));
        }
        i += 1;
    }
    proof {
        assert(src@.subrange(0, src@.len() as int) =~= src@);
    }
}

} // verus!
