//! Character-level text utilities shared by the prompt, compaction and
//! goal-evaluation modules.
use vstd::prelude::*;
use vstd::string::*;
use vstd::utf8::*;

verus! {

/// Whether `c` carries the Unicode `White_Space` property, whose code
/// points are U+0009..U+000D, U+0020, U+0085, U+00A0, U+1680,
/// U+2000..U+200A, U+2028, U+2029, U+202F, U+205F and U+3000.
pub open spec fn unicode_white_space(c: char) -> bool {
    let v = c as u32;
    ||| 0x9 <= v <= 0xD
    ||| v == 0x20
    ||| v == 0x85
    ||| v == 0xA0
    ||| v == 0x1680
    ||| 0x2000 <= v <= 0x200A
    ||| v == 0x2028
    ||| v == 0x2029
    ||| v == 0x202F
    ||| v == 0x205F
    ||| v == 0x3000
}

/// The Unicode lower-case mapping of `s`, as `str::to_lowercase` computes it.
pub uninterp spec fn unicode_lowercase(s: Seq<char>) -> Seq<char>;

/// Number of UTF-8 bytes that encode `s`.
pub open spec fn utf8_len(s: Seq<char>) -> nat {
    encode_utf8(s).len()
}

/// `s` with every trailing white-space character removed.
pub open spec fn trim_end_spec(s: Seq<char>) -> Seq<char>
    decreases s.len(),
{
    if s.len() == 0 {
        s
    } else if unicode_white_space(s.last()) {
        trim_end_spec(s.drop_last())
    } else {
        s
    }
}

/// `s` with every leading white-space character removed.
pub open spec fn trim_start_spec(s: Seq<char>) -> Seq<char>
    decreases s.len(),
{
    if s.len() == 0 {
        s
    } else if unicode_white_space(s[0]) {
        trim_start_spec(s.drop_first())
    } else {
        s
    }
}

/// `s` with white space removed at both ends.
pub open spec fn trim_spec(s: Seq<char>) -> Seq<char> {
    trim_start_spec(trim_end_spec(s))
}

/// `needle` occurs in `hay` at position `i`.
pub open spec fn occurs_at(hay: Seq<char>, needle: Seq<char>, i: int) -> bool {
    0 <= i && i + needle.len() <= hay.len() && hay.subrange(i, i + needle.len()) == needle
}

/// `needle` occurs somewhere in `hay`.
pub open spec fn contains_seq(hay: Seq<char>, needle: Seq<char>) -> bool {
    exists|i: int| occurs_at(hay, needle, i)
}

/// Ceiling of `n / 4`: the chars-per-token heuristic used throughout.
pub open spec fn ceil_quarter(n: nat) -> nat {
    if n % 4 == 0 { n / 4 } else { n / 4 + 1 }
}

/// Lexicographic order of texts by code point (the order of `String`).
pub open spec fn lex_lt(a: Seq<char>, b: Seq<char>) -> bool
    decreases a.len(),
{
    if a.len() == 0 {
        b.len() > 0
    } else if b.len() == 0 {
        false
    } else if a[0] != b[0] {
        (a[0] as u32) < (b[0] as u32)
    } else {
        lex_lt(a.drop_first(), b.drop_first())
    }
}

/// Strictly increasing in lexicographic order (hence without duplicates).
pub open spec fn strictly_sorted(s: Seq<Seq<char>>) -> bool {
    forall|i: int, j: int| 0 <= i < j < s.len() ==> lex_lt(#[trigger] s[i], #[trigger] s[j])
}

/// No text precedes itself.
pub proof fn lemma_lex_irreflexive(a: Seq<char>)
    ensures
        !lex_lt(a, a),
    decreases a.len(),
{
    if a.len() > 0 {
        lemma_lex_irreflexive(a.drop_first());
    }
}

/// Lexicographic order is transitive.
pub proof fn lemma_lex_transitive(a: Seq<char>, b: Seq<char>, c: Seq<char>)
    requires
        lex_lt(a, b),
        lex_lt(b, c),
    ensures
        lex_lt(a, c),
    decreases a.len(),
{
    if a.len() > 0 && b.len() > 0 && c.len() > 0 {
        if a[0] == b[0] && b[0] == c[0] {
            lemma_lex_transitive(a.drop_first(), b.drop_first(), c.drop_first());
        }
    }
}

/// Two different texts are ordered one way or the other.
pub proof fn lemma_lex_total(a: Seq<char>, b: Seq<char>)
    ensures
        a == b || lex_lt(a, b) || lex_lt(b, a),
    decreases a.len(),
{
    if a.len() > 0 && b.len() > 0 {
        if a[0] == b[0] {
            lemma_lex_total(a.drop_first(), b.drop_first());
            if a.drop_first() == b.drop_first() {
                assert(a =~= seq![a[0]] + a.drop_first());
                assert(b =~= seq![b[0]] + b.drop_first());
            }
        } else {
            assert((a[0] as u32) != (b[0] as u32)) by {
                vstd::utf8::char_u32_cast(a[0], a[0] as u32);
                vstd::utf8::char_u32_cast(b[0], b[0] as u32);
            }
        }
    } else if a.len() == 0 && b.len() == 0 {
        assert(a =~= b);
    }
}

/// Whether `a` precedes `b` lexicographically.
pub fn lex_less(a: &Vec<char>, b: &Vec<char>) -> (r: bool)
    ensures
        r == lex_lt(a@, b@),
{
    let mut i: usize = 0;
    proof {
        assert(a@.skip(0) =~= a@);
        assert(b@.skip(0) =~= b@);
    }
    while i < a.len() && i < b.len() && a[i] == b[i]
        invariant
            i <= a@.len(),
            i <= b@.len(),
            lex_lt(a@, b@) == lex_lt(a@.skip(i as int), b@.skip(i as int)),
        decreases a@.len() - i,
    {
        proof {
            assert(a@.skip(i as int).drop_first() =~= a@.skip(i + 1));
            assert(b@.skip(i as int).drop_first() =~= b@.skip(i + 1));
        }
        i = i + 1;
    }
    proof {
        assert(a@.skip(0) =~= a@);
        assert(b@.skip(0) =~= b@);
    }
    if i == a.len() {
        i < b.len()
    } else if i == b.len() {
        false
    } else {
        (a[i] as u32) < (b[i] as u32)
    }
}

/// Adds `x` to a strictly sorted list of texts (kept strictly sorted;
/// nothing is added if `x` is already there).
pub fn insert_sorted_unique(v: &mut Vec<String>, x: String)
    requires
        strictly_sorted(old(v)@.map_values(|s: String| s@)),
    ensures
        strictly_sorted(final(v)@.map_values(|s: String| s@)),
        final(v)@.map_values(|s: String| s@).to_set() == old(v)@.map_values(|s: String| s@).to_set().insert(x@),
{
    let ghost vs = old(v)@.map_values(|s: String| s@);
    let xc = chars_of(x.as_str());
    let mut k: usize = 0;
    while k < v.len()
        invariant
            v@.map_values(|s: String| s@) == vs,
            xc@ == x@,
            k <= vs.len(),
            forall|m: int| 0 <= m < k ==> lex_lt(#[trigger] vs[m], x@),
        ensures
            v@.map_values(|s: String| s@) == vs,
            k <= vs.len(),
            forall|m: int| 0 <= m < k ==> lex_lt(#[trigger] vs[m], x@),
            k < vs.len() ==> !lex_lt(vs[k as int], x@),
        decreases vs.len() - k,
    {
        let yc = chars_of(v[k].as_str());
        assert(yc@ == vs[k as int]);
        if !lex_less(&yc, &xc) {
            break;
        }
        k = k + 1;
    }
    if k < v.len() {
        let yc = chars_of(v[k].as_str());
        if chars_eq(&yc, &xc) {
            proof {
                assert(vs.to_set().contains(x@)) by {
                    assert(vs[k as int] == x@);
                }
                assert(vs.to_set().insert(x@) =~= vs.to_set());
            }
            return;
        }
        proof {
            assert(yc@ == vs[k as int]);
            lemma_lex_total(vs[k as int], x@);
            assert(lex_lt(x@, vs[k as int]));
        }
    }
    v.insert(k, x);
    proof {
        let ws = v@.map_values(|s: String| s@);
        assert(ws =~= vs.insert(k as int, x@));
        assert forall|i: int, j: int| 0 <= i < j < ws.len() implies lex_lt(#[trigger] ws[i], #[trigger] ws[j]) by {
            if j < k {
            } else if j == k {
            } else if i < k {
                assert(ws[j] == vs[j - 1]);
                if k < vs.len() {
                    if j - 1 > k {
                        lemma_lex_transitive(ws[i], x@, vs[k as int]);
                        lemma_lex_transitive(ws[i], vs[k as int], vs[j - 1]);
                    } else {
                        lemma_lex_transitive(ws[i], x@, vs[k as int]);
                    }
                }
            } else if i == k {
                assert(ws[j] == vs[j - 1]);
                if j - 1 > k {
                    lemma_lex_transitive(x@, vs[k as int], vs[j - 1]);
                }
            } else {
                assert(ws[i] == vs[i - 1]);
                assert(ws[j] == vs[j - 1]);
            }
        }
        assert(ws.to_set() =~= vs.to_set().insert(x@)) by {
            assert forall|y: Seq<char>| ws.to_set().contains(y) implies vs.to_set().insert(x@).contains(y) by {
                let i = choose|i: int| 0 <= i < ws.len() && ws[i] == y;
                if i < k {
                    assert(vs[i] == y);
                } else if i > k {
                    assert(vs[i - 1] == y);
                }
            }
            assert forall|y: Seq<char>| vs.to_set().insert(x@).contains(y) implies ws.to_set().contains(y) by {
                if y == x@ {
                    assert(ws[k as int] == y);
                } else {
                    let i = choose|i: int| 0 <= i < vs.len() && vs[i] == y;
                    if i < k {
                        assert(ws[i] == y);
                    } else {
                        assert(ws[i + 1] == y);
                    }
                }
            }
        }
    }
}

/// The UTF-8 encoding of a concatenation is the concatenation of encodings.
pub proof fn lemma_encode_utf8_concat(a: Seq<char>, b: Seq<char>)
    ensures
        encode_utf8(a + b) == encode_utf8(a) + encode_utf8(b),
    decreases a.len(),
{
    if a.len() == 0 {
        assert(a + b =~= b);
        assert(encode_utf8(a) =~= Seq::<u8>::empty());
        assert(encode_utf8(a) + encode_utf8(b) =~= encode_utf8(b));
    } else {
        assert((a + b)[0] == a[0]);
        assert((a + b).drop_first() =~= a.drop_first() + b);
        lemma_encode_utf8_concat(a.drop_first(), b);
        assert(encode_utf8(a + b) == encode_scalar(a[0] as u32) + encode_utf8(a.drop_first() + b));
        assert(encode_utf8(a) == encode_scalar(a[0] as u32) + encode_utf8(a.drop_first()));
        assert(encode_scalar(a[0] as u32) + (encode_utf8(a.drop_first()) + encode_utf8(b))
            =~= (encode_scalar(a[0] as u32) + encode_utf8(a.drop_first())) + encode_utf8(b));
    }
}

/// A newline is encoded as a single byte.
pub proof fn lemma_newline_utf8_len()
    ensures
        utf8_len(seq!['\n']) == 1,
{
    reveal_with_fuel(encode_utf8, 2);
    assert(seq!['\n'].drop_first() =~= Seq::<char>::empty());
}

/// Only the empty text has an empty encoding.
pub proof fn lemma_utf8_len_zero(s: Seq<char>)
    ensures
        utf8_len(s) == 0 <==> s.len() == 0,
{
    if s.len() > 0 {
        assert(encode_scalar(s[0] as u32).len() > 0);
    }
}

/// The trimmed text is a prefix of the input.
pub proof fn lemma_trim_end_prefix(s: Seq<char>)
    ensures
        trim_end_spec(s).len() <= s.len(),
        trim_end_spec(s) == s.take(trim_end_spec(s).len() as int),
    decreases s.len(),
{
    if s.len() > 0 && unicode_white_space(s.last()) {
        lemma_trim_end_prefix(s.drop_last());
        assert(s.drop_last().take(trim_end_spec(s.drop_last()).len() as int)
            =~= s.take(trim_end_spec(s.drop_last()).len() as int));
    } else {
        assert(s.take(s.len() as int) =~= s);
    }
}

/// The characters of `s`, in order.
pub fn chars_of(s: &str) -> (v: Vec<char>)
    ensures
        v@ == s@,
{
    let mut v: Vec<char> = Vec::new();
    for c in it: s.chars()
        invariant
            v@ == it.seq().take(it.index() as int),
            it.seq() == s@,
    {
        v.push(c);
        assert(v@ == it.seq().take(it.index() as int + 1));
    }
    assert(v@ == s@);
    v
}

/// Whether `c` has the Unicode `White_Space` property (as
/// `char::is_whitespace` answers).
pub fn is_white_space(c: char) -> (b: bool)
    ensures
        b == unicode_white_space(c),
{
    let v = c as u32;
    (0x9 <= v && v <= 0xD) || v == 0x20 || v == 0x85 || v == 0xA0 || v == 0x1680 || (0x2000 <= v
        && v <= 0x200A) || v == 0x2028 || v == 0x2029 || v == 0x202F || v == 0x205F || v == 0x3000
}

/// `str::to_lowercase`: the Unicode lower-case mapping of `s`.
#[verifier::external_body]
pub(crate) fn to_lowercase(s: &str) -> (r: String)
    ensures
        r@ == unicode_lowercase(s@),
{
    s.to_lowercase()
}

/// `String::push`: appends one character.
#[verifier::external_body]
pub(crate) fn push_char(s: &mut String, c: char)
    ensures
        final(s)@ == old(s)@.push(c),
{
    s.push(c)
}

/// Length of `s` once trailing white space is removed.
pub fn trim_end_len(s: &Vec<char>) -> (k: usize)
    ensures
        k <= s@.len(),
        s@.take(k as int) == trim_end_spec(s@),
{
    let mut k = s.len();
    proof {
        assert(s@.take(k as int) =~= s@);
    }
    while k > 0 && is_white_space(s[k - 1])
        invariant
            k <= s@.len(),
            trim_end_spec(s@.take(k as int)) == trim_end_spec(s@),
        decreases k,
    {
        proof {
            assert(s@.take(k as int).drop_last() =~= s@.take(k - 1));
        }
        k = k - 1;
    }
    proof {
        assert(trim_end_spec(s@.take(k as int)) == s@.take(k as int));
    }
    k
}

/// Index of the first non-white-space character of `s` (or its length).
pub fn trim_start_index(s: &Vec<char>) -> (k: usize)
    ensures
        k <= s@.len(),
        s@.skip(k as int) == trim_start_spec(s@),
{
    let mut k: usize = 0;
    proof {
        assert(s@.skip(0) =~= s@);
    }
    while k < s.len() && is_white_space(s[k])
        invariant
            k <= s@.len(),
            trim_start_spec(s@.skip(k as int)) == trim_start_spec(s@),
        decreases s@.len() - k,
    {
        proof {
            assert(s@.skip(k as int).drop_first() =~= s@.skip(k + 1));
        }
        k = k + 1;
    }
    proof {
        assert(trim_start_spec(s@.skip(k as int)) == s@.skip(k as int));
    }
    k
}

/// `s` with trailing white space removed.
pub fn trim_end_string(s: &String) -> (r: String)
    ensures
        r@ == trim_end_spec(s@),
{
    let cs = chars_of(s.as_str());
    let k = trim_end_len(&cs);
    s.as_str().substring_char(0, k).to_owned()
}

/// The characters `v[from..to]` as a string.
pub fn string_of_range(v: &Vec<char>, from: usize, to: usize) -> (r: String)
    requires
        from <= to <= v@.len(),
    ensures
        r@ == v@.subrange(from as int, to as int),
{
    let mut r = String::new();
    let mut i = from;
    while i < to
        invariant
            from <= i <= to <= v@.len(),
            r@ == v@.subrange(from as int, i as int),
        decreases to - i,
    {
        push_char(&mut r, v[i]);
        proof {
            assert(v@.subrange(from as int, i + 1) =~= v@.subrange(from as int, i as int).push(v@[i as int]));
        }
        i = i + 1;
    }
    r
}

/// Whether two character vectors are equal.
pub fn chars_eq(a: &Vec<char>, b: &Vec<char>) -> (r: bool)
    ensures
        r == (a@ == b@),
{
    if a.len() != b.len() {
        return false;
    }
    let mut i: usize = 0;
    while i < a.len()
        invariant
            a@.len() == b@.len(),
            i <= a@.len(),
            forall|m: int| 0 <= m < i ==> a@[m] == b@[m],
        decreases a@.len() - i,
    {
        if a[i] != b[i] {
            return false;
        }
        i = i + 1;
    }
    proof {
        assert(a@ =~= b@);
    }
    true
}

/// Whether two strings are equal.
pub fn str_eq(a: &str, b: &str) -> (r: bool)
    ensures
        r == (a@ == b@),
{
    let x = chars_of(a);
    let y = chars_of(b);
    chars_eq(&x, &y)
}

/// Whether `needle` occurs in `hay` at position `i`.
pub fn occurs_at_exec(hay: &Vec<char>, needle: &Vec<char>, i: usize) -> (b: bool)
    ensures
        b == occurs_at(hay@, needle@, i as int),
{
    if i > hay.len() || needle.len() > hay.len() - i {
        return false;
    }
    let mut j: usize = 0;
    while j < needle.len()
        invariant
            i + needle@.len() <= hay@.len(),
            hay@.len() <= usize::MAX,
            j <= needle@.len(),
            forall|m: int| 0 <= m < j ==> hay@[i + m] == needle@[m],
        decreases needle@.len() - j,
    {
        if hay[i + j] != needle[j] {
            proof {
                assert(hay@.subrange(i as int, i + needle@.len())[j as int] != needle@[j as int]);
            }
            return false;
        }
        j = j + 1;
    }
    proof {
        assert(hay@.subrange(i as int, i + needle@.len()) =~= needle@);
    }
    true
}

/// Whether `needle` occurs anywhere in `hay`.
pub fn contains_chars(hay: &Vec<char>, needle: &Vec<char>) -> (b: bool)
    ensures
        b == contains_seq(hay@, needle@),
{
    if needle.len() > hay.len() {
        proof {
            assert forall|i: int| !occurs_at(hay@, needle@, i) by {}
        }
        return false;
    }
    let last = hay.len() - needle.len();
    let mut i: usize = 0;
    while i <= last
        invariant
            last == hay@.len() - needle@.len(),
            i <= last + 1,
            forall|m: int| 0 <= m < i ==> !occurs_at(hay@, needle@, m),
        decreases last + 1 - i,
    {
        if occurs_at_exec(hay, needle, i) {
            return true;
        }
        if i == last {
            proof {
                assert forall|m: int| !occurs_at(hay@, needle@, m) by {
                    if 0 <= m && m + needle@.len() <= hay@.len() {
                        assert(m <= i);
                    }
                }
            }
            return false;
        }
        i = i + 1;
    }
    proof {
        assert forall|m: int| !occurs_at(hay@, needle@, m) by {
            if 0 <= m && m + needle@.len() <= hay@.len() {
                assert(m < i);
            }
        }
    }
    false
}

/// Whether `needle` occurs anywhere in `hay`.
pub fn str_contains(hay: &str, needle: &str) -> (b: bool)
    ensures
        b == contains_seq(hay@, needle@),
{
    let h = chars_of(hay);
    let n = chars_of(needle);
    contains_chars(&h, &n)
}

/// UTF-8 length of `s`, or `None` if it exceeds a `usize`.
pub fn utf8_len_checked(s: &str) -> (r: Option<usize>)
    ensures
        r matches Some(n) ==> n == utf8_len(s@),
        r is None ==> utf8_len(s@) > usize::MAX,
{
    let cs = chars_of(s);
    let mut total: usize = 0;
    let n = cs.len();
    for i in 0..n
        invariant
            n == cs@.len(),
            cs@ == s@,
            total == utf8_len(cs@.take(i as int)),
    {
        proof {
            assert(cs@.take(i + 1) =~= cs@.take(i as int) + seq![cs@[i as int]]);
            lemma_encode_utf8_concat(cs@.take(i as int), seq![cs@[i as int]]);
            reveal_with_fuel(encode_utf8, 2);
            assert(seq![cs@[i as int]].drop_first() =~= Seq::<char>::empty());
        }
        let v = cs[i] as u32;
        let w: usize = if v <= 0x7F {
            1
        } else if v <= 0x7FF {
            2
        } else if v <= 0xFFFF {
            3
        } else {
            4
        };
        proof {
            vstd::utf8::char_is_scalar(cs@[i as int]);
            assert(w == encode_scalar(v).len());
            assert(cs@ =~= cs@.take(i + 1) + cs@.skip(i + 1));
            lemma_encode_utf8_concat(cs@.take(i + 1), cs@.skip(i + 1));
        }
        match total.checked_add(w) {
            Some(t) => {
                total = t;
            },
            None => {
                return None;
            },
        }
    }
    proof {
        assert(cs@.take(n as int) =~= cs@);
    }
    Some(total)
}

/// Ceiling of `n / 4`.
pub fn ceil_quarter_exec(n: usize) -> (r: usize)
    ensures
        r == ceil_quarter(n as nat),
{
    if n % 4 == 0 { n / 4 } else { n / 4 + 1 }
}

/// The decimal digit `d` (for `d < 10`).
pub open spec fn digit_char(d: nat) -> char {
    if d == 0 {
        '0'
    } else if d == 1 {
        '1'
    } else if d == 2 {
        '2'
    } else if d == 3 {
        '3'
    } else if d == 4 {
        '4'
    } else if d == 5 {
        '5'
    } else if d == 6 {
        '6'
    } else if d == 7 {
        '7'
    } else if d == 8 {
        '8'
    } else {
        '9'
    }
}

/// The decimal notation of `n`, as `Display` writes an unsigned integer.
pub open spec fn decimal_spec(n: nat) -> Seq<char>
    decreases n,
{
    if n < 10 {
        seq![digit_char(n)]
    } else {
        decimal_spec(n / 10).push(digit_char(n % 10))
    }
}

fn digit(d: u64) -> (c: char)
    requires
        d < 10,
    ensures
        c == digit_char(d as nat),
{
    if d == 0 {
        '0'
    } else if d == 1 {
        '1'
    } else if d == 2 {
        '2'
    } else if d == 3 {
        '3'
    } else if d == 4 {
        '4'
    } else if d == 5 {
        '5'
    } else if d == 6 {
        '6'
    } else if d == 7 {
        '7'
    } else if d == 8 {
        '8'
    } else {
        '9'
    }
}

/// The decimal notation of `n`.
pub fn decimal(n: u64) -> (r: String)
    ensures
        r@ == decimal_spec(n as nat),
    decreases n,
{
    if n < 10 {
        let mut s = String::new();
        push_char(&mut s, digit(n));
        proof {
            assert(s@ =~= seq![digit_char(n as nat)]);
        }
        s
    } else {
        let mut s = decimal(n / 10);
        push_char(&mut s, digit(n % 10));
        s
    }
}

/// The longest prefix of `c`, in whole characters, whose UTF-8 encoding
/// takes at most `max` bytes: `c` itself when it fits.
pub open spec fn byte_prefix(c: Seq<char>, max: nat) -> Seq<char>
    decreases c.len(),
{
    if c.len() == 0 || utf8_len(c) <= max {
        c
    } else {
        byte_prefix(c.drop_last(), max)
    }
}

/// Number of UTF-8 bytes of one character.
pub fn char_utf8_len(c: char) -> (n: usize)
    ensures
        n == utf8_len(seq![c]),
        1 <= n <= 4,
{
    proof {
        reveal_with_fuel(encode_utf8, 2);
        assert(seq![c].drop_first() =~= Seq::<char>::empty());
        assert(encode_utf8(seq![c]) =~= encode_scalar(c as u32) + encode_utf8(Seq::<char>::empty()));
        assert(encode_utf8(seq![c]) =~= encode_scalar(c as u32));
    }
    let v = c as u32;
    if v <= 0x7F {
        1
    } else if v <= 0x7FF {
        2
    } else if v <= 0xFFFF {
        3
    } else {
        4
    }
}

/// The encoding of the first `k + 1` characters is that of the first `k`
/// and of the next character.
pub proof fn lemma_utf8_len_take_step(c: Seq<char>, k: int)
    requires
        0 <= k < c.len(),
    ensures
        utf8_len(c.take(k + 1)) == utf8_len(c.take(k)) + utf8_len(seq![c[k]]),
{
    assert(c.take(k + 1) =~= c.take(k) + seq![c[k]]);
    lemma_encode_utf8_concat(c.take(k), seq![c[k]]);
}

/// Longer prefixes take at least as many bytes.
pub proof fn lemma_utf8_len_take_mono(c: Seq<char>, i: int, j: int)
    requires
        0 <= i <= j <= c.len(),
    ensures
        utf8_len(c.take(i)) <= utf8_len(c.take(j)),
{
    assert(c.take(j) =~= c.take(i) + c.subrange(i, j));
    lemma_encode_utf8_concat(c.take(i), c.subrange(i, j));
}

/// `byte_prefix` is the prefix of `k` characters where `k` characters fit
/// and `k + 1` do not (or `k` is all of them).
pub proof fn lemma_byte_prefix_at(c: Seq<char>, max: nat, k: int)
    requires
        0 <= k <= c.len(),
        utf8_len(c.take(k)) <= max,
        k < c.len() ==> utf8_len(c.take(k + 1)) > max,
    ensures
        byte_prefix(c, max) == c.take(k),
    decreases c.len(),
{
    if c.len() == 0 || utf8_len(c) <= max {
        if k < c.len() {
            lemma_utf8_len_take_mono(c, k + 1, c.len() as int);
            assert(c.take(c.len() as int) =~= c);
        }
        assert(c.take(c.len() as int) =~= c);
    } else {
        assert(c.take(c.len() as int) =~= c);
        assert(k < c.len());
        let d = c.drop_last();
        assert(d.take(k) =~= c.take(k));
        if k < d.len() {
            assert(d.take(k + 1) =~= c.take(k + 1));
        }
        lemma_byte_prefix_at(d, max, k);
    }
}

/// `s` cut to at most `max` bytes at the last character boundary.
pub fn cut_to_bytes(s: &str, max: usize) -> (r: String)
    ensures
        r@ == byte_prefix(s@, max as nat),
{
    let cs = chars_of(s);
    let mut k: usize = 0;
    let mut bytes: usize = 0;
    proof {
        assert(cs@.take(0) =~= Seq::<char>::empty());
    }
    while k < cs.len()
        invariant
            k <= cs@.len(),
            bytes == utf8_len(cs@.take(k as int)),
            bytes <= max,
        ensures
            k <= cs@.len(),
            bytes == utf8_len(cs@.take(k as int)),
            bytes <= max,
            k < cs@.len() ==> utf8_len(cs@.take(k + 1)) > max,
        decreases cs@.len() - k,
    {
        let l = char_utf8_len(cs[k]);
        proof {
            lemma_utf8_len_take_step(cs@, k as int);
        }
        if l > max - bytes {
            break;
        }
        bytes = bytes + l;
        k = k + 1;
    }
    proof {
        lemma_byte_prefix_at(cs@, max as nat, k as int);
        assert(cs@.subrange(0, k as int) =~= cs@.take(k as int));
    }
    string_of_range(&cs, 0, k)
}

} // verus!
