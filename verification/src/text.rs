//! Character-level text helpers: whitespace, trimming, searching.

use vstd::prelude::*;

verus! {

/// The Unicode `White_Space` property, which is what `char::is_whitespace` tests.
pub open spec fn is_white(c: char) -> bool {
    ||| ('\u{9}' <= c && c <= '\u{d}')
    ||| c == ' '
    ||| c == '\u{85}'
    ||| c == '\u{a0}'
    ||| c == '\u{1680}'
    ||| ('\u{2000}' <= c && c <= '\u{200a}')
    ||| c == '\u{2028}'
    ||| c == '\u{2029}'
    ||| c == '\u{202f}'
    ||| c == '\u{205f}'
    ||| c == '\u{3000}'
}

/// Executable whitespace test.
pub fn is_white_char(c: char) -> (b: bool)
    ensures
        b == is_white(c),
{
    ('\u{9}' <= c && c <= '\u{d}') || c == ' ' || c == '\u{85}' || c == '\u{a0}' || c == '\u{1680}'
        || ('\u{2000}' <= c && c <= '\u{200a}') || c == '\u{2028}' || c == '\u{2029}' || c
        == '\u{202f}' || c == '\u{205f}' || c == '\u{3000}'
}

/// `s` without its leading whitespace.
pub open spec fn trim_start(s: Seq<char>) -> Seq<char>
    decreases s.len(),
{
    if s.len() > 0 && is_white(s[0]) {
        trim_start(s.drop_first())
    } else {
        s
    }
}

/// `s` without its trailing whitespace.
pub open spec fn trim_end(s: Seq<char>) -> Seq<char>
    decreases s.len(),
{
    if s.len() > 0 && is_white(s.last()) {
        trim_end(s.drop_last())
    } else {
        s
    }
}

/// `s` without leading and trailing whitespace (what `str::trim` returns).
pub open spec fn trim(s: Seq<char>) -> Seq<char> {
    trim_end(trim_start(s))
}

proof fn lemma_trim_start_front(s: Seq<char>)
    ensures
        trim_start(s).len() > 0 ==> !is_white(trim_start(s)[0]),
        trim_start(s).len() <= s.len(),
    decreases s.len(),
{
    if s.len() > 0 && is_white(s[0]) {
        lemma_trim_start_front(s.drop_first());
    }
}

proof fn lemma_trim_end_back(s: Seq<char>)
    ensures
        trim_end(s).len() > 0 ==> !is_white(trim_end(s).last()) && trim_end(s)[0] == s[0],
        trim_end(s).len() <= s.len(),
        trim_end(s) == s.take(trim_end(s).len() as int),
    decreases s.len(),
{
    if s.len() > 0 && is_white(s.last()) {
        lemma_trim_end_back(s.drop_last());
        assert(s.drop_last().take(trim_end(s).len() as int) =~= s.take(trim_end(s).len() as int));
    } else {
        assert(s.take(s.len() as int) =~= s);
    }
}

/// A trimmed text that is not empty begins and ends with a character that
/// is not whitespace.
pub proof fn lemma_trim_ends(s: Seq<char>)
    ensures
        trim(s).len() > 0 ==> !is_white(trim(s)[0]) && !is_white(trim(s).last()),
{
    lemma_trim_start_front(s);
    lemma_trim_end_back(trim_start(s));
}

/// Index of the last occurrence of `c` in `s`, or -1.
pub open spec fn last_index_of(s: Seq<char>, c: char) -> int
    decreases s.len(),
{
    if s.len() == 0 {
        -1
    } else if s.last() == c {
        s.len() - 1
    } else {
        last_index_of(s.drop_last(), c)
    }
}

/// What `last_index_of` is, stated by position.
pub proof fn lemma_last_index_of(s: Seq<char>, c: char)
    ensures
        -1 <= last_index_of(s, c) < s.len(),
        last_index_of(s, c) >= 0 ==> s[last_index_of(s, c)] == c,
        forall|j: int| last_index_of(s, c) < j < s.len() ==> s[j] != c,
        (last_index_of(s, c) == -1) == !s.contains(c),
    decreases s.len(),
{
    if s.len() > 0 && s.last() != c {
        lemma_last_index_of(s.drop_last(), c);
        assert forall|j: int| last_index_of(s, c) < j < s.len() implies s[j] != c by {
            if j < s.len() - 1 {
                assert(s.drop_last()[j] == s[j]);
            }
        }
        if s.contains(c) {
            let k = choose|k: int| 0 <= k < s.len() && s[k] == c;
            assert(s.drop_last()[k] == c);
        }
        if s.drop_last().contains(c) {
            let k = choose|k: int| 0 <= k < s.drop_last().len() && s.drop_last()[k] == c;
            assert(s[k] == c);
        }
    } else if s.len() > 0 {
        assert(s[s.len() - 1] == c);
    }
}

proof fn lemma_take_drop_last<A>(s: Seq<A>, i: int)
    requires
        0 < i <= s.len(),
    ensures
        s.take(i).drop_last() == s.take(i - 1),
        s.take(i).last() == s[i - 1],
{
    assert(s.take(i).drop_last() =~= s.take(i - 1));
}

proof fn lemma_skip_drop_first<A>(s: Seq<A>, i: int)
    requires
        0 <= i < s.len(),
    ensures
        s.skip(i).drop_first() == s.skip(i + 1),
        s.skip(i)[0] == s[i],
{
    assert(s.skip(i).drop_first() =~= s.skip(i + 1));
}

/// Position of the last `c` in `s`.
pub fn find_last(s: &str, c: char) -> (r: Option<usize>)
    ensures
        match r {
            None => last_index_of(s@, c) == -1,
            Some(i) => i == last_index_of(s@, c),
        },
{
    let n = s.unicode_len();
    let mut i = n;
    assert(s@.take(n as int) =~= s@);
    while i > 0
        invariant
            n == s@.len(),
            i <= n,
            last_index_of(s@, c) == last_index_of(s@.take(i as int), c),
        decreases i,
    {
        proof {
            lemma_take_drop_last(s@, i as int);
        }
        if s.get_char(i - 1) == c {
            return Some(i - 1);
        }
        i = i - 1;
    }
    proof {
        assert(s@.take(0).len() == 0);
    }
    None
}

/// Whether `s` holds the character `c`.
pub fn has_char(s: &str, c: char) -> (b: bool)
    ensures
        b == s@.contains(c),
{
    let r = find_last(s, c);
    proof {
        lemma_last_index_of(s@, c);
    }
    r.is_some()
}

/// `s` without leading and trailing whitespace.
pub fn trim_str(s: &str) -> (r: &str)
    ensures
        r@ == trim(s@),
{
    let n = s.unicode_len();
    let mut a: usize = 0;
    assert(s@.skip(0) =~= s@);
    while a < n && is_white_char(s.get_char(a))
        invariant
            n == s@.len(),
            a <= n,
            trim_start(s@) == trim_start(s@.skip(a as int)),
        decreases n - a,
    {
        proof {
            lemma_skip_drop_first(s@, a as int);
        }
        a = a + 1;
    }
    let ghost front = s@.skip(a as int);
    assert(trim_start(s@) == front) by {
        if a < n {
            lemma_skip_drop_first(s@, a as int);
        }
    }
    let mut b: usize = n;
    while b > a && is_white_char(s.get_char(b - 1))
        invariant
            n == s@.len(),
            a <= b <= n,
            front == s@.skip(a as int),
            trim_end(front) == trim_end(s@.subrange(a as int, b as int)),
        decreases b,
    {
        proof {
            assert(s@.subrange(a as int, b as int).drop_last() =~= s@.subrange(
                a as int,
                b - 1,
            ));
        }
        b = b - 1;
    }
    proof {
        if b == n {
            assert(front =~= s@.subrange(a as int, b as int));
        }
    }
    s.substring_char(a, b)
}

/// Index of the first occurrence of `c` in `s`, or -1.
pub open spec fn first_index_of(s: Seq<char>, c: char) -> int
    decreases s.len(),
{
    if s.len() == 0 {
        -1
    } else if s[0] == c {
        0
    } else {
        let r = first_index_of(s.drop_first(), c);
        if r < 0 {
            -1
        } else {
            r + 1
        }
    }
}

/// What `first_index_of` is, stated by position.
pub proof fn lemma_first_index_of(s: Seq<char>, c: char)
    ensures
        -1 <= first_index_of(s, c) < s.len(),
        first_index_of(s, c) >= 0 ==> s[first_index_of(s, c)] == c,
        forall|j: int| 0 <= j < s.len() && (first_index_of(s, c) < 0 || j < first_index_of(s, c)) ==> s[j] != c,
        (first_index_of(s, c) == -1) == !s.contains(c),
    decreases s.len(),
{
    if s.len() > 0 && s[0] != c {
        lemma_first_index_of(s.drop_first(), c);
        assert forall|j: int| 0 <= j < s.len() && (first_index_of(s, c) < 0 || j < first_index_of(s, c)) implies s[j] != c by {
            if j > 0 {
                assert(s.drop_first()[j - 1] == s[j]);
            }
        }
        if s.contains(c) {
            let k = choose|k: int| 0 <= k < s.len() && s[k] == c;
            assert(s.drop_first()[k - 1] == c);
        }
        if s.drop_first().contains(c) {
            let k = choose|k: int| 0 <= k < s.drop_first().len() && s.drop_first()[k] == c;
            assert(s[k + 1] == c);
        }
    } else if s.len() > 0 {
        assert(s[0] == c);
    }
}

/// Position of the first `c` in `s` at or after `p`.
pub fn find_from(s: &str, c: char, p: usize) -> (r: Option<usize>)
    requires
        p <= s@.len(),
    ensures
        match r {
            None => first_index_of(s@.skip(p as int), c) == -1,
            Some(i) => first_index_of(s@.skip(p as int), c) >= 0 && i == p + first_index_of(
                s@.skip(p as int),
                c,
            ),
        },
{
    let n = s.unicode_len();
    let mut i = p;
    while i < n
        invariant
            n == s@.len(),
            p <= i <= n,
            first_index_of(s@.skip(p as int), c) == (if first_index_of(s@.skip(i as int), c) < 0 {
                -1
            } else {
                (i - p) + first_index_of(s@.skip(i as int), c)
            }),
        decreases n - i,
    {
        proof {
            lemma_skip_drop_first(s@, i as int);
        }
        if s.get_char(i) == c {
            return Some(i);
        }
        i = i + 1;
    }
    None
}

/// Whether `pat` is a prefix of the characters of `s` from `p` to `end`.
pub fn matches_at(s: &str, p: usize, end: usize, pat: &str) -> (b: bool)
    requires
        p <= end <= s@.len(),
    ensures
        b == pat@.is_prefix_of(s@.subrange(p as int, end as int)),
{
    let m = pat.unicode_len();
    if m > end - p {
        return false;
    }
    let mut k: usize = 0;
    while k < m
        invariant
            m == pat@.len(),
            p + m <= end <= s@.len(),
            k <= m,
            forall|j: int| 0 <= j < k ==> pat@[j] == s@[p + j],
        decreases m - k,
    {
        if pat.get_char(k) != s.get_char(p + k) {
            assert(pat@[k as int] != s@.subrange(p as int, end as int)[k as int]);
            return false;
        }
        k = k + 1;
    }
    assert(pat@ =~= s@.subrange(p as int, end as int).subrange(0, m as int));
    true
}

/// Whether two texts are equal.
pub fn same_text(a: &str, b: &str) -> (r: bool)
    ensures
        r == (a@ == b@),
{
    let n = a.unicode_len();
    if n != b.unicode_len() {
        return false;
    }
    let r = matches_at(b, 0, n, a);
    proof {
        assert(b@.subrange(0, n as int) =~= b@);
        if r {
            assert(a@ =~= b@);
        }
    }
    r
}

/// The leading run of non-whitespace characters of `s`.
pub open spec fn first_word(s: Seq<char>) -> Seq<char>
    decreases s.len(),
{
    if s.len() == 0 || is_white(s[0]) {
        Seq::empty()
    } else {
        seq![s[0]] + first_word(s.drop_first())
    }
}

/// The length of `first_word`, and what it holds.
pub proof fn lemma_first_word(s: Seq<char>)
    ensures
        first_word(s).len() <= s.len(),
        first_word(s) == s.take(first_word(s).len() as int),
        forall|j: int| 0 <= j < first_word(s).len() ==> !is_white(s[j]),
        first_word(s).len() < s.len() ==> is_white(s[first_word(s).len() as int]),
        s.len() > 0 && !is_white(s[0]) ==> first_word(s).len() > 0,
    decreases s.len(),
{
    if s.len() > 0 && !is_white(s[0]) {
        lemma_first_word(s.drop_first());
        assert(first_word(s) =~= s.take(first_word(s).len() as int));
        assert forall|j: int| 0 <= j < first_word(s).len() implies !is_white(s[j]) by {
            if j > 0 {
                assert(s[j] == s.drop_first()[j - 1]);
            }
        }
    } else {
        assert(s.take(0) =~= Seq::<char>::empty());
    }
}

/// The whitespace-separated words of `s` (what `str::split_whitespace` yields).
pub open spec fn words(s: Seq<char>) -> Seq<Seq<char>>
    decreases s.len(),
{
    if s.len() == 0 {
        Seq::empty()
    } else if is_white(s[0]) {
        words(s.drop_first())
    } else {
        proof {
            lemma_first_word(s);
        }
        seq![first_word(s)] + words(s.skip(first_word(s).len() as int))
    }
}

/// The views of a sequence of text slices.
pub open spec fn texts_view(v: Seq<&str>) -> Seq<Seq<char>> {
    v.map_values(|w: &str| w@)
}

/// The whitespace-separated words of `s`.
pub fn split_words(s: &str) -> (r: Vec<&str>)
    ensures
        texts_view(r@) == words(s@),
{
    let n = s.unicode_len();
    let mut out: Vec<&str> = Vec::new();
    let mut i: usize = 0;
    assert(s@.skip(0) =~= s@);
    while i < n
        invariant
            n == s@.len(),
            i <= n,
            words(s@) == texts_view(out@) + words(s@.skip(i as int)),
        decreases n - i,
    {
        let ghost t = s@.skip(i as int);
        proof {
            lemma_skip_drop_first(s@, i as int);
        }
        if is_white_char(s.get_char(i)) {
            i = i + 1;
        } else {
            let mut k = i + 1;
            proof {
                lemma_first_word(t);
            }
            while k < n && !is_white_char(s.get_char(k))
                invariant
                    n == s@.len(),
                    i < k <= n,
                    t == s@.skip(i as int),
                    k - i <= first_word(t).len(),
                    first_word(t).len() <= t.len(),
                    first_word(t).len() < t.len() ==> is_white(t[first_word(t).len() as int]),
                    forall|j: int| 0 <= j < first_word(t).len() ==> !is_white(t[j]),
                decreases n - k,
            {
                k = k + 1;
            }
            let w = s.substring_char(i, k);
            proof {
                if k < n && k - i < first_word(t).len() {
                    assert(t[k - i] == s@[k as int]);
                }
                assert(k - i == first_word(t).len());
                assert(w@ =~= first_word(t));
                assert(t.skip(first_word(t).len() as int) =~= s@.skip(k as int));
                assert(texts_view(out@.push(w)) =~= texts_view(out@) + seq![w@]);
            }
            out.push(w);
            i = k;
        }
    }
    proof {
        assert(texts_view(out@) + words(s@.skip(n as int)) =~= texts_view(out@));
    }
    out
}

/// The texts of `parts` with `sep` between each two of them.
pub open spec fn join(parts: Seq<Seq<char>>, sep: Seq<char>) -> Seq<char>
    decreases parts.len(),
{
    if parts.len() == 0 {
        Seq::empty()
    } else if parts.len() == 1 {
        parts[0]
    } else {
        join(parts.drop_last(), sep) + sep + parts.last()
    }
}

/// The views of a sequence of strings.
pub open spec fn strings_view(v: Seq<String>) -> Seq<Seq<char>> {
    v.map_values(|w: String| w@)
}

/// Joins text slices with a separator.
pub fn join_strs(parts: &[&str], sep: &str) -> (r: String)
    ensures
        r@ == join(texts_view(parts@), sep@),
{
    let mut out = String::new();
    let n = parts.len();
    let mut i: usize = 0;
    while i < n
        invariant
            n == parts@.len(),
            i <= n,
            out@ == join(texts_view(parts@.take(i as int)), sep@),
        decreases n - i,
    {
        assert(texts_view(parts@.take(i + 1)).drop_last() =~= texts_view(parts@.take(i as int)));
        if i > 0 {
            out.append(sep);
        }
        out.append(parts[i]);
        proof {
            if i == 0 {
                assert(texts_view(parts@.take(1)) =~= seq![parts@[0]@]);
                assert(out@ =~= parts@[0]@);
            }
        }
        i = i + 1;
    }
    assert(parts@.take(n as int) =~= parts@);
    out
}

/// Joins strings with a separator.
pub fn join_strings(parts: &[String], sep: &str) -> (r: String)
    ensures
        r@ == join(strings_view(parts@), sep@),
{
    let mut out = String::new();
    let n = parts.len();
    let mut i: usize = 0;
    while i < n
        invariant
            n == parts@.len(),
            i <= n,
            out@ == join(strings_view(parts@.take(i as int)), sep@),
        decreases n - i,
    {
        assert(strings_view(parts@.take(i + 1)).drop_last() =~= strings_view(parts@.take(i as int)));
        if i > 0 {
            out.append(sep);
        }
        out.append(parts[i].as_str());
        proof {
            if i == 0 {
                assert(strings_view(parts@.take(1)) =~= seq![parts@[0]@]);
                assert(out@ =~= parts@[0]@);
            }
        }
        i = i + 1;
    }
    assert(parts@.take(n as int) =~= parts@);
    out
}

/// The character of a decimal digit.
pub open spec fn digit_char(d: int) -> char {
    if d == 0 { '0' } else if d == 1 { '1' } else if d == 2 { '2' } else if d == 3 { '3' }
    else if d == 4 { '4' } else if d == 5 { '5' } else if d == 6 { '6' } else if d == 7 { '7' }
    else if d == 8 { '8' } else { '9' }
}

/// The decimal text of a natural number, without leading zeros.
pub open spec fn nat_text(n: nat) -> Seq<char>
    decreases n,
{
    if n < 10 {
        seq![digit_char(n as int)]
    } else {
        nat_text(n / 10) + seq![digit_char((n % 10) as int)]
    }
}

/// The decimal text of an integer, with a '-' before a negative one.
pub open spec fn int_text(v: int) -> Seq<char> {
    if v < 0 {
        seq!['-'] + nat_text((-v) as nat)
    } else {
        nat_text(v as nat)
    }
}

fn digit_str(d: u64) -> (r: &'static str)
    requires
        d < 10,
    ensures
        r@ == seq![digit_char(d as int)],
{
    proof {
        reveal_strlit("0");
        reveal_strlit("1");
        reveal_strlit("2");
        reveal_strlit("3");
        reveal_strlit("4");
        reveal_strlit("5");
        reveal_strlit("6");
        reveal_strlit("7");
        reveal_strlit("8");
        reveal_strlit("9");
    }
    if d == 0 { "0" } else if d == 1 { "1" } else if d == 2 { "2" } else if d == 3 { "3" }
    else if d == 4 { "4" } else if d == 5 { "5" } else if d == 6 { "6" } else if d == 7 { "7" }
    else if d == 8 { "8" } else { "9" }
}

/// The decimal text of an unsigned number.
pub fn u64_text(v: u64) -> (r: String)
    ensures
        r@ == nat_text(v as nat),
{
    let mut m = v;
    let mut acc = String::new();
    if m == 0 {
        acc.append(digit_str(0));
        return acc;
    }
    while m > 0
        invariant
            nat_text(v as nat) == (if m == 0 { acc@ } else { nat_text(m as nat) + acc@ }),
            m == 0 ==> acc@.len() > 0,
        decreases m,
    {
        let d = m % 10;
        let next = m / 10;
        let mut piece = String::from_str(digit_str(d));
        piece.append(acc.as_str());
        proof {
            if m >= 10 {
                assert(nat_text(m as nat) == nat_text(next as nat) + seq![digit_char(d as int)]);
                assert(nat_text(next as nat) + seq![digit_char(d as int)] + acc@ =~= nat_text(next as nat) + piece@);
            } else {
                assert(next == 0);
                assert(nat_text(m as nat) + acc@ =~= piece@);
            }
        }
        acc = piece;
        m = next;
    }
    acc
}

/// The decimal text of a signed number.
pub fn i64_text(v: i64) -> (r: String)
    ensures
        r@ == int_text(v as int),
{
    if v < 0 {
        let magnitude: u64 = if v == i64::MIN {
            9223372036854775808u64
        } else {
            (-v) as u64
        };
        let mut out = String::from_str("-");
        proof {
            reveal_strlit("-");
        }
        let digits = u64_text(magnitude);
        out.append(digits.as_str());
        assert(out@ =~= seq!['-'] + nat_text((-(v as int)) as nat));
        out
    } else {
        u64_text(v as u64)
    }
}

/// Lexicographic order of texts by code point (the order of `str` and `String`,
/// since UTF-8 keeps the order of code points).
pub open spec fn text_lt(a: Seq<char>, b: Seq<char>) -> bool
    decreases a.len(),
{
    if a.len() == 0 {
        b.len() > 0
    } else if b.len() == 0 {
        false
    } else if a[0] != b[0] {
        (a[0] as int) < (b[0] as int)
    } else {
        text_lt(a.drop_first(), b.drop_first())
    }
}

/// `text_lt` is a strict total order.
pub proof fn lemma_text_lt_order(a: Seq<char>, b: Seq<char>, c: Seq<char>)
    ensures
        !text_lt(a, a),
        text_lt(a, b) ==> !text_lt(b, a),
        text_lt(a, b) && text_lt(b, c) ==> text_lt(a, c),
        a != b ==> text_lt(a, b) || text_lt(b, a),
    decreases a.len(),
{
    if a.len() > 0 && b.len() > 0 && c.len() > 0 {
        lemma_text_lt_order(a.drop_first(), b.drop_first(), c.drop_first());
    } else if a.len() > 0 && b.len() > 0 {
        lemma_text_lt_order(a.drop_first(), b.drop_first(), b.drop_first());
    } else if a.len() > 0 {
        lemma_text_lt_order(a.drop_first(), a.drop_first(), a.drop_first());
    }
    if a.len() > 0 && b.len() > 0 && a[0] == b[0] && a.drop_first() == b.drop_first() {
        assert forall|i: int| 0 <= i < a.len() implies a[i] == b[i] by {
            if i > 0 {
                assert(a[i] == a.drop_first()[i - 1]);
                assert(b[i] == b.drop_first()[i - 1]);
            }
        }
        assert(a =~= b);
    }
    if a.len() == 0 && b.len() == 0 {
        assert(a =~= b);
    }
    if a.len() > 0 && b.len() > 0 && a[0] != b[0] {
        assert((a[0] as int) != (b[0] as int));
    }
}

/// Compares two texts in `text_lt` order.
pub fn text_less(a: &str, b: &str) -> (r: bool)
    ensures
        r == text_lt(a@, b@),
{
    let n = a.unicode_len();
    let m = b.unicode_len();
    let mut i: usize = 0;
    assert(a@.skip(0) =~= a@);
    assert(b@.skip(0) =~= b@);
    while i < n && i < m
        invariant
            n == a@.len(),
            m == b@.len(),
            i <= n,
            i <= m,
            text_lt(a@, b@) == text_lt(a@.skip(i as int), b@.skip(i as int)),
        decreases n - i,
    {
        let x = a.get_char(i);
        let y = b.get_char(i);
        proof {
            lemma_skip_drop_first(a@, i as int);
            lemma_skip_drop_first(b@, i as int);
        }
        if x != y {
            return (x as u32) < (y as u32);
        }
        i = i + 1;
    }
    i == n && i < m
}

} // verus!
