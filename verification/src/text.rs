//! Character-level text helpers shared by the parsers and the REPL: Unicode
//! whitespace, trimming, ASCII case folding, splitting on a separator, and
//! decimal integer parsing and formatting.

use vstd::prelude::*;
use vstd::string::*;
use vstd::utf8::*;

verus! {

/// The Unicode `White_Space` property, as `char::is_whitespace` defines it.
pub open spec fn is_unicode_whitespace(c: char) -> bool {
    let u = c as u32;
    ||| 0x09 <= u <= 0x0D
    ||| u == 0x20
    ||| u == 0x85
    ||| u == 0xA0
    ||| u == 0x1680
    ||| 0x2000 <= u <= 0x200A
    ||| u == 0x2028
    ||| u == 0x2029
    ||| u == 0x202F
    ||| u == 0x205F
    ||| u == 0x3000
}

/// Whether `c` is Unicode whitespace.
pub fn is_whitespace(c: char) -> (b: bool)
    ensures
        b == is_unicode_whitespace(c),
{
    let u = c as u32;
    (0x09 <= u && u <= 0x0D) || u == 0x20 || u == 0x85 || u == 0xA0 || u == 0x1680 || (0x2000
        <= u && u <= 0x200A) || u == 0x2028 || u == 0x2029 || u == 0x202F || u == 0x205F || u
        == 0x3000
}

/// The characters of `s`, in order.
pub fn chars_of(s: &str) -> (v: Vec<char>)
    ensures
        v@ == s@,
{
    let n = s.unicode_len();
    let mut v: Vec<char> = Vec::new();
    let mut i: usize = 0;
    while i < n
        invariant
            n == s@.len(),
            i <= n,
            v@ == s@.subrange(0, i as int),
        decreases n - i,
    {
        v.push(s.get_char(i));
        i = i + 1;
    }
    v
}

/// The number of UTF-8 bytes taken by the first `c` characters of `s`: the byte
/// offset of character `c`.
pub open spec fn utf8_prefix_len(s: Seq<char>, c: int) -> int {
    encode_utf8(s.subrange(0, c)).len() as int
}

/// The character index whose byte offset in `s` is `pos` (there is at most
/// one, see [`lemma_utf8_prefix_strict`]).
pub open spec fn char_index_at(s: Seq<char>, pos: int) -> int {
    choose|c: int| 0 <= c <= s.len() && utf8_prefix_len(s, c) == pos
}

/// The number of bytes `ch` takes in UTF-8 (`char::len_utf8`).
pub fn utf8_width(ch: char) -> (w: usize)
    ensures
        w == encode_scalar(ch as u32).len(),
{
    let u: u32 = ch as u32;
    proof {
        char_is_scalar(ch);
    }
    if u < 0x80 {
        1
    } else if u < 0x800 {
        2
    } else if u < 0x10000 {
        3
    } else {
        4
    }
}

/// UTF-8 encoding distributes over concatenation.
pub proof fn lemma_encode_utf8_concat(a: Seq<char>, b: Seq<char>)
    ensures
        encode_utf8(a + b) == encode_utf8(a) + encode_utf8(b),
    decreases a.len(),
{
    if a.len() == 0 {
        assert(a + b =~= b);
        assert(encode_utf8(a) + encode_utf8(b) =~= encode_utf8(b));
    } else {
        assert((a + b).drop_first() =~= a.drop_first() + b);
        assert((a + b)[0] == a[0]);
        lemma_encode_utf8_concat(a.drop_first(), b);
        assert(encode_utf8(a + b) =~= encode_utf8(a) + encode_utf8(b));
    }
}

/// The encoding of one character is its scalar's encoding.
proof fn lemma_encode_utf8_single(x: char)
    ensures
        encode_utf8(seq![x]) == encode_scalar(x as u32),
        1 <= encode_scalar(x as u32).len() <= 4,
{
    let s = seq![x];
    assert(s.drop_first() =~= Seq::<char>::empty());
    assert(encode_utf8(Seq::<char>::empty()) =~= Seq::<u8>::empty());
    assert(encode_utf8(s) =~= encode_scalar(x as u32) + encode_utf8(s.drop_first()));
    assert(encode_utf8(s) =~= encode_scalar(x as u32));
}

/// Moving one character further adds that character's width to the offset.
pub proof fn lemma_utf8_prefix_step(s: Seq<char>, i: int)
    requires
        0 <= i < s.len(),
    ensures
        utf8_prefix_len(s, i + 1) == utf8_prefix_len(s, i) + encode_scalar(s[i] as u32).len(),
        1 <= encode_scalar(s[i] as u32).len() <= 4,
{
    assert(s.subrange(0, i + 1) =~= s.subrange(0, i) + seq![s[i]]);
    lemma_encode_utf8_concat(s.subrange(0, i), seq![s[i]]);
    lemma_encode_utf8_single(s[i]);
}

/// Byte offsets grow strictly with the character index.
pub proof fn lemma_utf8_prefix_strict(s: Seq<char>, i: int, j: int)
    requires
        0 <= i < j <= s.len(),
    ensures
        utf8_prefix_len(s, i) < utf8_prefix_len(s, j),
    decreases j - i,
{
    lemma_utf8_prefix_step(s, j - 1);
    if i < j - 1 {
        lemma_utf8_prefix_strict(s, i, j - 1);
    }
}

/// A character boundary of the encoding of `s` is the byte offset of a
/// character index.
pub proof fn lemma_char_boundary_index(s: Seq<char>, idx: int)
    requires
        is_char_boundary(encode_utf8(s), idx),
    ensures
        0 <= char_index_at(s, idx) <= s.len(),
        utf8_prefix_len(s, char_index_at(s, idx)) == idx,
    decreases s.len(),
{
    let bytes = encode_utf8(s);
    encode_utf8_valid_utf8(s);
    if idx == 0 {
        assert(s.subrange(0, 0) =~= Seq::<char>::empty());
        assert(utf8_prefix_len(s, 0) == 0);
    } else {
        assert(0 < idx <= bytes.len());
        if s.len() == 0 {
            assert(bytes =~= Seq::<u8>::empty());
        }
        assert(s.len() > 0);
        encode_utf8_first_scalar(s);
        let w = encode_scalar(s[0] as u32).len() as int;
        assert(bytes == encode_scalar(s[0] as u32) + encode_utf8(s.drop_first()));
        assert(pop_first_scalar(bytes) =~= encode_utf8(s.drop_first()));
        assert(is_char_boundary(encode_utf8(s.drop_first()), idx - w));
        lemma_char_boundary_index(s.drop_first(), idx - w);
        let c1 = char_index_at(s.drop_first(), idx - w);
        assert(s.subrange(0, c1 + 1) =~= seq![s[0]] + s.drop_first().subrange(0, c1));
        lemma_encode_utf8_concat(seq![s[0]], s.drop_first().subrange(0, c1));
        lemma_encode_utf8_single(s[0]);
        assert(utf8_prefix_len(s, c1 + 1) == idx);
    }
}

/// `s` with leading and trailing Unicode whitespace removed (`str::trim`).
pub open spec fn spec_trim(s: Seq<char>) -> Seq<char>
    decreases s.len(),
{
    if s.len() > 0 && is_unicode_whitespace(s[0]) {
        spec_trim(s.drop_first())
    } else if s.len() > 0 && is_unicode_whitespace(s.last()) {
        spec_trim(s.drop_last())
    } else {
        s
    }
}

/// The bounds `[lo, hi)` of `s` with surrounding whitespace removed.
pub fn trim_bounds(s: &Vec<char>) -> (r: (usize, usize))
    ensures
        r.0 <= r.1 <= s@.len(),
        s@.subrange(r.0 as int, r.1 as int) == spec_trim(s@),
{
    let n = s.len();
    let mut lo: usize = 0;
    assert(s@.subrange(0, n as int) == s@);
    while lo < n && is_whitespace(s[lo])
        invariant
            n == s@.len(),
            lo <= n,
            spec_trim(s@) == spec_trim(s@.subrange(lo as int, n as int)),
        decreases n - lo,
    {
        assert(s@.subrange(lo as int, n as int).drop_first() == s@.subrange(lo + 1, n as int));
        lo = lo + 1;
    }
    let mut hi: usize = n;
    while hi > lo && is_whitespace(s[hi - 1])
        invariant
            n == s@.len(),
            lo <= hi <= n,
            lo < hi ==> !is_unicode_whitespace(s@[lo as int]),
            spec_trim(s@) == spec_trim(s@.subrange(lo as int, hi as int)),
        decreases hi,
    {
        assert(s@.subrange(lo as int, hi as int).drop_last() == s@.subrange(lo as int, hi - 1));
        hi = hi - 1;
    }
    (lo, hi)
}

/// ASCII lower-casing of one character (`char::to_ascii_lowercase`).
pub open spec fn ascii_lower_char(c: char) -> char {
    if 'A' <= c <= 'Z' {
        ((c as u32) + 32) as char
    } else {
        c
    }
}

/// ASCII lower-casing, with `_` also rewritten to `-` when `dashes` is set
/// (`to_ascii_lowercase().replace('_', "-")`).
pub open spec fn fold_char(c: char, dashes: bool) -> char {
    if dashes && c == '_' {
        '-'
    } else {
        ascii_lower_char(c)
    }
}

/// [`fold_char`] applied to every character.
pub open spec fn fold(s: Seq<char>, dashes: bool) -> Seq<char> {
    s.map_values(|c: char| fold_char(c, dashes))
}

/// Folding twice folds once.
pub proof fn lemma_fold_idempotent(s: Seq<char>, dashes: bool)
    ensures
        fold(fold(s, dashes), dashes) == fold(s, dashes),
{
    assert forall|i: int| 0 <= i < s.len() implies fold_char(
        fold_char(#[trigger] s[i], dashes),
        dashes,
    ) == fold_char(s[i], dashes) by {
        let c = s[i];
        if 'A' <= c <= 'Z' && !(dashes && c == '_') {
            let u = (c as u32) + 32;
            assert(97 <= u <= 122);
            assert((u as char) as u32 == u);
        }
    }
    assert(fold(fold(s, dashes), dashes) =~= fold(s, dashes));
}

/// Whether `v`, folded as [`fold`] says, holds exactly the characters of `lit`.
pub fn folded_equals(v: &Vec<char>, lit: &str, dashes: bool) -> (b: bool)
    ensures
        b == (fold(v@, dashes) == lit@),
{
    let n = lit.unicode_len();
    if v.len() != n {
        return false;
    }
    let mut i: usize = 0;
    while i < n
        invariant
            n == lit@.len(),
            n == v@.len(),
            i <= n,
            forall|j: int| 0 <= j < i ==> fold_char(v@[j], dashes) == lit@[j],
        decreases n - i,
    {
        let c = v[i];
        let l = lit.get_char(i);
        let same = if dashes && c == '_' {
            l == '-'
        } else if 'A' <= c && c <= 'Z' {
            (c as u32) + 32 == l as u32
        } else {
            c == l
        };
        if !same {
            assert(fold_char(v@[i as int], dashes) != lit@[i as int]);
            assert(fold(v@, dashes)[i as int] != lit@[i as int]);
            return false;
        }
        i = i + 1;
    }
    assert(fold(v@, dashes) == lit@);
    true
}

/// Whether `v` holds exactly the characters of `lit`.
pub fn chars_equal(v: &Vec<char>, lit: &str) -> (b: bool)
    ensures
        b == (v@ == lit@),
{
    let n = lit.unicode_len();
    if v.len() != n {
        return false;
    }
    let mut i: usize = 0;
    while i < n
        invariant
            n == lit@.len(),
            n == v@.len(),
            i <= n,
            forall|j: int| 0 <= j < i ==> v@[j] == lit@[j],
        decreases n - i,
    {
        if v[i] != lit.get_char(i) {
            return false;
        }
        i = i + 1;
    }
    assert(v@ == lit@);
    true
}

/// `s` split at every `sep` (`str::split` with a char pattern): always at
/// least one piece, empty pieces kept.
pub open spec fn split_on(s: Seq<char>, sep: char) -> Seq<Seq<char>>
    decreases s.len(),
{
    if s.len() == 0 {
        seq![Seq::<char>::empty()]
    } else {
        let rest = split_on(s.drop_last(), sep);
        if s.last() == sep {
            rest.push(Seq::<char>::empty())
        } else {
            rest.update(rest.len() - 1, rest.last().push(s.last()))
        }
    }
}

proof fn lemma_split_on_nonempty(s: Seq<char>, sep: char)
    ensures
        split_on(s, sep).len() >= 1,
    decreases s.len(),
{
    if s.len() > 0 {
        lemma_split_on_nonempty(s.drop_last(), sep);
    }
}

proof fn lemma_split_on_append(p: Seq<char>, b: Seq<char>, sep: char)
    requires
        forall|i: int| 0 <= i < b.len() ==> #[trigger] b[i] != sep,
    ensures
        split_on(p + b, sep) == split_on(p, sep).update(
            split_on(p, sep).len() - 1,
            split_on(p, sep).last() + b,
        ),
    decreases b.len(),
{
    lemma_split_on_nonempty(p, sep);
    let sp = split_on(p, sep);
    if b.len() == 0 {
        assert(p + b =~= p);
        assert(sp.last() + b =~= sp.last());
        assert(sp.update(sp.len() - 1, sp.last()) =~= sp);
    } else {
        let b0 = b.drop_last();
        assert forall|i: int| 0 <= i < b0.len() implies #[trigger] b0[i] != sep by {
            assert(b0[i] == b[i]);
        }
        lemma_split_on_append(p, b0, sep);
        assert((p + b).drop_last() =~= p + b0);
        assert((p + b).last() == b.last());
        assert(b.last() == b[b.len() - 1]);
        let rest = split_on(p + b0, sep);
        assert(rest.last() == sp.last() + b0);
        assert((sp.last() + b0).push(b.last()) =~= sp.last() + b);
        assert(rest.update(rest.len() - 1, rest.last().push(b.last())) =~= sp.update(
            sp.len() - 1,
            sp.last() + b,
        ));
    }
}

/// Three pieces free of `sep`, joined by `sep`, split back into those pieces.
pub proof fn lemma_split_on_three(a: Seq<char>, b: Seq<char>, c: Seq<char>, sep: char)
    requires
        forall|i: int| 0 <= i < a.len() ==> #[trigger] a[i] != sep,
        forall|i: int| 0 <= i < b.len() ==> #[trigger] b[i] != sep,
        forall|i: int| 0 <= i < c.len() ==> #[trigger] c[i] != sep,
    ensures
        split_on(a + seq![sep] + b + seq![sep] + c, sep) == seq![a, b, c],
{
    let e = Seq::<char>::empty();
    lemma_split_on_append(e, a, sep);
    assert(e + a =~= a);
    assert(split_on(e, sep) == seq![e]);
    assert(seq![e].update(0, e + a) =~= seq![a]);
    let a1 = a + seq![sep];
    assert(a1.drop_last() =~= a);
    assert(split_on(a1, sep) =~= seq![a, e]);
    lemma_split_on_append(a1, b, sep);
    assert(seq![a, e].update(1, e + b) =~= seq![a, b]);
    let b1 = a1 + b + seq![sep];
    assert(b1.drop_last() =~= a1 + b);
    assert(split_on(b1, sep) =~= seq![a, b, e]);
    lemma_split_on_append(b1, c, sep);
    assert(seq![a, b, e].update(2, e + c) =~= seq![a, b, c]);
}

/// The pieces of `s` between occurrences of `sep`.
pub fn split_chars(s: &Vec<char>, sep: char) -> (parts: Vec<Vec<char>>)
    ensures
        parts@.len() == split_on(s@, sep).len(),
        forall|k: int| 0 <= k < parts@.len() ==> #[trigger] parts@[k]@ == split_on(s@, sep)[k],
{
    let mut parts: Vec<Vec<char>> = Vec::new();
    let mut cur: Vec<char> = Vec::new();
    let mut i: usize = 0;
    proof {
        assert(s@.subrange(0, 0) == Seq::<char>::empty());
    }
    while i < s.len()
        invariant
            i <= s@.len(),
            parts@.len() + 1 == split_on(s@.subrange(0, i as int), sep).len(),
            forall|k: int|
                0 <= k < parts@.len() ==> #[trigger] parts@[k]@ == split_on(
                    s@.subrange(0, i as int),
                    sep,
                )[k],
            cur@ == split_on(s@.subrange(0, i as int), sep).last(),
        decreases s@.len() - i,
    {
        let c = s[i];
        proof {
            let pre = s@.subrange(0, i as int);
            let nxt = s@.subrange(0, i + 1);
            assert(nxt.drop_last() == pre);
            assert(nxt.last() == c);
            lemma_split_on_nonempty(pre, sep);
        }
        if c == sep {
            let done = cur;
            parts.push(done);
            cur = Vec::new();
        } else {
            cur.push(c);
        }
        i = i + 1;
    }
    proof {
        assert(s@.subrange(0, s@.len() as int) == s@);
        lemma_split_on_nonempty(s@, sep);
    }
    parts.push(cur);
    parts
}

/// Whether every character of `d` is an ASCII decimal digit.
pub open spec fn all_digits(d: Seq<char>) -> bool {
    forall|i: int| 0 <= i < d.len() ==> '0' <= #[trigger] d[i] <= '9'
}

/// The value of a string of decimal digits (most significant first).
pub open spec fn digits_value(d: Seq<char>) -> nat
    decreases d.len(),
{
    if d.len() == 0 {
        0
    } else {
        digits_value(d.drop_last()) * 10 + (d.last() as nat - '0' as nat) as nat
    }
}

proof fn lemma_digits_value_prefix_monotone(d: Seq<char>, i: int)
    requires
        0 <= i <= d.len(),
        all_digits(d),
    ensures
        digits_value(d.subrange(0, i)) <= digits_value(d),
    decreases d.len() - i,
{
    if i < d.len() {
        lemma_digits_value_prefix_monotone(d, i + 1);
        assert(d.subrange(0, i + 1).drop_last() == d.subrange(0, i));
        assert('0' <= d[i] <= '9');
    } else {
        assert(d.subrange(0, i) == d);
    }
}

/// The value of `d` when it is a non-empty run of digits no larger than `bound`.
pub open spec fn spec_decimal_upto(d: Seq<char>, bound: nat) -> Option<nat> {
    if d.len() > 0 && all_digits(d) && digits_value(d) <= bound {
        Some(digits_value(d))
    } else {
        None
    }
}

/// Parse the digits `d[from..]` as a decimal number no larger than `bound`.
pub fn parse_digits(d: &Vec<char>, from: usize, bound: u64) -> (r: Option<u64>)
    requires
        from <= d@.len(),
    ensures
        r is Some <==> spec_decimal_upto(d@.subrange(from as int, d@.len() as int), bound as nat) is Some,
        r matches Some(v) ==> v as nat == digits_value(d@.subrange(from as int, d@.len() as int)),
{
    let ghost t = d@.subrange(from as int, d@.len() as int);
    if from == d.len() {
        return None;
    }
    let mut acc: u64 = 0;
    let mut i: usize = from;
    proof {
        assert(t.subrange(0, 0) == Seq::<char>::empty());
    }
    while i < d.len()
        invariant
            from <= i <= d@.len(),
            t == d@.subrange(from as int, d@.len() as int),
            all_digits(t.subrange(0, i - from)),
            acc == digits_value(t.subrange(0, i - from)),
            acc <= bound,
        decreases d@.len() - i,
    {
        let c = d[i];
        proof {
            assert(t[i - from] == c);
            assert(t.subrange(0, i - from + 1).drop_last() == t.subrange(0, i - from));
        }
        if c < '0' || c > '9' {
            assert(!all_digits(t));
            return None;
        }
        let digit: u64 = (c as u32 - '0' as u32) as u64;
        if digit > bound || acc > (bound - digit) / 10 {
            proof {
                assert(digits_value(t.subrange(0, i - from + 1)) == acc * 10 + digit);
                assert(acc * 10 + digit > bound) by (nonlinear_arith)
                    requires
                        digit > bound || acc > (bound - digit) / 10,
                        digit <= 9,
                ;
                if all_digits(t) {
                    lemma_digits_value_prefix_monotone(t, i - from + 1);
                }
            }
            return None;
        }
        proof {
            assert(acc * 10 + digit <= bound) by (nonlinear_arith)
                requires
                    acc <= (bound - digit) / 10,
                    digit <= bound,
            ;
        }
        acc = acc * 10 + digit;
        i = i + 1;
    }
    proof {
        assert(t.subrange(0, i - from) == t);
    }
    Some(acc)
}


/// The ASCII digit for `d < 10`.
pub open spec fn digit_char(d: nat) -> char {
    ('0' as nat + d) as char
}

/// The shortest decimal representation of `n` (as `usize`'s `Display` writes it).
pub open spec fn decimal_digits(n: nat) -> Seq<char>
    decreases n,
{
    if n < 10 {
        seq![digit_char(n)]
    } else {
        decimal_digits(n / 10).push(digit_char(n % 10))
    }
}

/// The decimal representation of `n` is a non-empty run of digits worth `n`.
pub proof fn lemma_decimal_digits_value(n: nat)
    ensures
        decimal_digits(n).len() >= 1,
        all_digits(decimal_digits(n)),
        digits_value(decimal_digits(n)) == n,
    decreases n,
{
    let ds = decimal_digits(n);
    if n < 10 {
        assert(ds.drop_last() =~= Seq::<char>::empty());
        assert(digits_value(Seq::<char>::empty()) == 0);
        assert(digit_char(n) as nat == 48 + n);
        assert(ds.last() == digit_char(n));
        assert(digits_value(ds) == digits_value(ds.drop_last()) * 10 + (ds.last() as nat
            - '0' as nat) as nat);
    } else {
        lemma_decimal_digits_value(n / 10);
        let d = n % 10;
        assert(digit_char(d) as nat == 48 + d);
        assert(ds.drop_last() =~= decimal_digits(n / 10));
        assert(ds.last() == digit_char(d));
        assert(digits_value(ds) == digits_value(ds.drop_last()) * 10 + (ds.last() as nat
            - '0' as nat) as nat);
        assert(n == (n / 10) * 10 + d);
        assert forall|i: int| 0 <= i < ds.len() implies '0' <= #[trigger] ds[i] <= '9' by {
            if i < ds.len() - 1 {
                assert(ds[i] == decimal_digits(n / 10)[i]);
            }
        }
    }
}

/// A leading zero does not change a run of digits' value.
pub proof fn lemma_leading_zero_value(d: Seq<char>)
    ensures
        digits_value(seq!['0'] + d) == digits_value(d),
    decreases d.len(),
{
    let z = seq!['0'] + d;
    if d.len() == 0 {
        assert(z.drop_last() =~= Seq::<char>::empty());
        assert(digits_value(Seq::<char>::empty()) == 0);
        assert(z.last() == '0');
        assert(digits_value(z) == digits_value(z.drop_last()) * 10 + (z.last() as nat
            - '0' as nat) as nat);
    } else {
        lemma_leading_zero_value(d.drop_last());
        assert(z.drop_last() =~= seq!['0'] + d.drop_last());
        assert(z.last() == d.last());
        assert(digits_value(z) == digits_value(z.drop_last()) * 10 + (z.last() as nat
            - '0' as nat) as nat);
        assert(digits_value(d) == digits_value(d.drop_last()) * 10 + (d.last() as nat
            - '0' as nat) as nat);
    }
}

fn digit_string(d: usize) -> (s: String)
    requires
        d < 10,
    ensures
        s@ == seq![digit_char(d as nat)],
{
    proof {
        reveal_strlit("0");
        reveal_strlit("1");
        reveal_strlit("2");
        reveal_strlit("3");
        reveal_strlit("4");
        reveal_strlit("5");
        reveal_strlit("6");
        reveal_strlit("7");
        reveal_strlit("8");
        reveal_strlit("9");
    }
    let lit: &str = if d == 0 {
        "0"
    } else if d == 1 {
        "1"
    } else if d == 2 {
        "2"
    } else if d == 3 {
        "3"
    } else if d == 4 {
        "4"
    } else if d == 5 {
        "5"
    } else if d == 6 {
        "6"
    } else if d == 7 {
        "7"
    } else if d == 8 {
        "8"
    } else {
        "9"
    };
    String::from_str(lit)
}

/// `n` written in decimal.
pub fn decimal(n: usize) -> (s: String)
    ensures
        s@ == decimal_digits(n as nat),
    decreases n,
{
    if n < 10 {
        digit_string(n)
    } else {
        let mut s = decimal(n / 10);
        let d = digit_string(n % 10);
        s.append(d.as_str());
        s
    }
}

/// Strings as character sequences.
pub open spec fn strs_view(v: Seq<String>) -> Seq<Seq<char>> {
    v.map_values(|x: String| x@)
}

/// The pieces of `s` between occurrences of `sep` (`str::split`), as strings.
pub fn split_str(s: &str, sep: char) -> (parts: Vec<String>)
    ensures
        strs_view(parts@) == split_on(s@, sep),
{
    let cs = chars_of(s);
    let mut parts: Vec<String> = Vec::new();
    let mut start: usize = 0;
    let mut i: usize = 0;
    proof {
        assert(s@.subrange(0, 0) == Seq::<char>::empty());
    }
    while i < cs.len()
        invariant
            cs@ == s@,
            start <= i <= s@.len(),
            strs_view(parts@).push(s@.subrange(start as int, i as int)) == split_on(
                s@.subrange(0, i as int),
                sep,
            ),
        decreases s@.len() - i,
    {
        let c = cs[i];
        let ghost prev = strs_view(parts@);
        proof {
            let pre = s@.subrange(0, i as int);
            let nxt = s@.subrange(0, i + 1);
            assert(nxt.drop_last() == pre);
            assert(nxt.last() == c);
            lemma_split_on_nonempty(pre, sep);
            assert(split_on(pre, sep).last() == s@.subrange(start as int, i as int));
            assert(split_on(pre, sep).drop_last() =~= prev);
        }
        if c == sep {
            let piece = String::from_str(s.substring_char(start, i));
            parts.push(piece);
            proof {
                assert(strs_view(parts@) =~= prev.push(s@.subrange(start as int, i as int)));
                assert(s@.subrange(i + 1, i + 1) =~= Seq::<char>::empty());
            }
            start = i + 1;
        } else {
            proof {
                assert(s@.subrange(start as int, i + 1) =~= s@.subrange(start as int, i as int).push(
                    c,
                ));
            }
        }
        i = i + 1;
    }
    let last = String::from_str(s.substring_char(start, i));
    let ghost prev = strs_view(parts@);
    parts.push(last);
    proof {
        assert(s@.subrange(0, s@.len() as int) == s@);
        assert(strs_view(parts@) =~= prev.push(s@.subrange(start as int, i as int)));
    }
    parts
}

/// `s` with surrounding whitespace removed (`str::trim`), as a string.
pub fn trim_str(s: &str) -> (r: String)
    ensures
        r@ == spec_trim(s@),
{
    let cs = chars_of(s);
    let (lo, hi) = trim_bounds(&cs);
    String::from_str(s.substring_char(lo, hi))
}

/// Index of the last `sep` in `s`, if any.
pub open spec fn last_index_of(s: Seq<char>, sep: char) -> Option<int>
    decreases s.len(),
{
    if s.len() == 0 {
        None
    } else if s.last() == sep {
        Some(s.len() - 1)
    } else {
        last_index_of(s.drop_last(), sep)
    }
}

/// `s` split at its last `sep` (`str::rsplit_once`): the text before and after it.
pub fn rsplit_once_str(s: &str, sep: char) -> (r: Option<(String, String)>)
    ensures
        match last_index_of(s@, sep) {
            Some(i) => r matches Some(p) && p.0@ == s@.subrange(0, i) && p.1@ == s@.subrange(
                i + 1,
                s@.len() as int,
            ),
            None => r is None,
        },
{
    let cs = chars_of(s);
    let mut j: usize = cs.len();
    proof {
        assert(s@.subrange(0, j as int) == s@);
    }
    while j > 0 && cs[j - 1] != sep
        invariant
            cs@ == s@,
            j <= s@.len(),
            last_index_of(s@, sep) == last_index_of(s@.subrange(0, j as int), sep),
        decreases j,
    {
        proof {
            assert(s@.subrange(0, j as int).drop_last() == s@.subrange(0, j - 1));
        }
        j = j - 1;
    }
    if j == 0 {
        proof {
            assert(s@.subrange(0, 0) =~= Seq::<char>::empty());
        }
        return None;
    }
    proof {
        assert(s@.subrange(0, j as int).last() == sep);
    }
    let before = String::from_str(s.substring_char(0, j - 1));
    let after = String::from_str(s.substring_char(j, cs.len()));
    Some((before, after))
}

} // verus!
