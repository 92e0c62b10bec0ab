use vstd::prelude::*;

verus! {

/// The texts of a sequence of strings, in order.
pub open spec fn texts(v: Seq<String>) -> Seq<Seq<char>> {
    v.map_values(|s: String| s@)
}

/// The texts of a sequence of strings, as a set.
pub open spec fn string_set(v: Seq<String>) -> Set<Seq<char>> {
    Set::new(|m: Seq<char>| exists|i: int| 0 <= i < v.len() && v[i]@ == m)
}

/// Appending a string adds its text to the set.
pub proof fn lemma_string_set_push(v: Seq<String>, s: String)
    ensures
        string_set(v.push(s)) == string_set(v).insert(s@),
{
    assert forall|m: Seq<char>| string_set(v.push(s)).contains(m) <==> string_set(v).insert(s@).contains(m) by {
        if string_set(v).contains(m) {
            let j = choose|j: int| 0 <= j < v.len() && v[j]@ == m;
            assert(v.push(s)[j]@ == m);
        }
        if m == s@ {
            assert(v.push(s)[v.len() as int]@ == m);
        }
        if string_set(v.push(s)).contains(m) && m != s@ {
            let j = choose|j: int| 0 <= j < v.push(s).len() && v.push(s)[j]@ == m;
            assert(v[j]@ == m);
        }
    }
    assert(string_set(v.push(s)) =~= string_set(v).insert(s@));
}

/// `p` is a prefix of `s`.
pub open spec fn is_prefix(p: Seq<char>, s: Seq<char>) -> bool {
    p.len() <= s.len() && s.subrange(0, p.len() as int) == p
}

/// Text held as a vector of characters, with the same characters as `s`.
pub fn chars_of(s: &str) -> (v: Vec<char>)
    ensures
        v@ == s@,
{
    let mut v: Vec<char> = Vec::new();
    for c in it: s.chars()
        invariant
            v@ == it.seq().take(it.index() as int),
    {
        v.push(c);
    }
    v
}

#[verifier::external_body]
fn push_char(s: &mut String, c: char)
    ensures
        final(s)@ == old(s)@.push(c),
{
    s.push(c);
}

/// A `String` holding exactly the characters of `v`.
pub fn string_of(v: &Vec<char>) -> (s: String)
    ensures
        s@ == v@,
{
    let mut s = String::new();
    for i in 0..v.len()
        invariant
            s@ == v@.take(i as int),
    {
        push_char(&mut s, v[i]);
        assert(v@.take(i + 1) == v@.take(i as int).push(v@[i as int]));
    }
    assert(v@.take(v.len() as int) == v@);
    s
}


/// `p` occurs in `s` starting at index `i`.
pub open spec fn occurs_at(s: Seq<char>, p: Seq<char>, i: int) -> bool {
    0 <= i && i + p.len() <= s.len() && s.subrange(i, i + p.len()) == p
}

/// `p` occurs somewhere in `s`.
pub open spec fn contains_seq(s: Seq<char>, p: Seq<char>) -> bool {
    exists|i: int| occurs_at(s, p, i)
}

/// Whether `p` occurs in `s` at index `i`.
pub fn matches_at(s: &Vec<char>, p: &Vec<char>, i: usize) -> (res: bool)
    ensures
        res == occurs_at(s@, p@, i as int),
{
    if i > s.len() || p.len() > s.len() - i {
        return false;
    }
    let mut j: usize = 0;
    while j < p.len()
        invariant
            i + p.len() <= s.len(),
            j <= p.len(),
            forall|k: int| 0 <= k < j ==> s@[i + k] == p@[k],
        decreases p.len() - j,
    {
        if s[i + j] != p[j] {
            assert(s@.subrange(i as int, i + p.len())[j as int] != p@[j as int]);
            return false;
        }
        j = j + 1;
    }
    assert(s@.subrange(i as int, i + p.len()) =~= p@);
    true
}

/// Whether `p` occurs anywhere in `s`.
pub fn contains_chars(s: &Vec<char>, p: &Vec<char>) -> (res: bool)
    ensures
        res == contains_seq(s@, p@),
{
    if p.len() > s.len() {
        assert(!contains_seq(s@, p@));
        return false;
    }
    let n = s.len() - p.len();
    let mut i: usize = 0;
    loop
        invariant
            p.len() <= s.len(),
            n == s.len() - p.len(),
            i <= n,
            forall|k: int| 0 <= k < i ==> !occurs_at(s@, p@, k),
        ensures
            forall|k: int| 0 <= k <= n ==> !occurs_at(s@, p@, k),
        decreases n - i,
    {
        if matches_at(s, p, i) {
            return true;
        }
        if i == n {
            break;
        }
        i = i + 1;
    }
    proof { true_if_never(s@, p@); }
    false
}

proof fn true_if_never(s: Seq<char>, p: Seq<char>)
    requires
        p.len() <= s.len(),
        forall|k: int| 0 <= k < s.len() - p.len() + 1 ==> !occurs_at(s, p, k),
    ensures
        !contains_seq(s, p),
{
    assert forall|k: int| !occurs_at(s, p, k) by {
        if 0 <= k < s.len() - p.len() + 1 {
        }
    }
}

/// Whether `p` is a prefix of `s`.
pub fn has_prefix(s: &Vec<char>, p: &Vec<char>) -> (res: bool)
    ensures
        res == is_prefix(p@, s@),
{
    matches_at(s, p, 0)
}


/// The character of a decimal digit `d` (which is below ten).
pub open spec fn digit_char(d: nat) -> char {
    (48 + d) as char
}

/// The decimal numeral of `n`, without sign or leading zeros.
pub open spec fn decimal(n: nat) -> Seq<char>
    decreases n,
{
    if n < 10 {
        seq![digit_char(n)]
    } else {
        decimal(n / 10).push(digit_char(n % 10))
    }
}

/// `c` is one of `0`..`9`.
pub open spec fn is_digit(c: char) -> bool {
    '0' <= c && c <= '9'
}

/// Every character of `s` is a decimal digit.
pub open spec fn all_digits(s: Seq<char>) -> bool {
    forall|i: int| 0 <= i < s.len() ==> is_digit(#[trigger] s[i])
}

/// The value of the digits of `s`, read in base ten.
pub open spec fn digits_value(s: Seq<char>) -> nat
    decreases s.len(),
{
    if s.len() == 0 {
        0
    } else {
        digits_value(s.drop_last()) * 10 + ((s.last() as int - 48) as nat)
    }
}

/// What `str::parse` makes of `s` for an unsigned integer type whose largest value is `max`:
/// an optional `+`, then one or more decimal digits whose value does not exceed `max`.
pub open spec fn parse_unsigned(s: Seq<char>, max: nat) -> Option<nat> {
    let d = if s.len() > 0 && s[0] == '+' { s.skip(1) } else { s };
    if d.len() > 0 && all_digits(d) && digits_value(d) <= max {
        Some(digits_value(d))
    } else {
        None
    }
}

fn push_decimal(n: u64, out: &mut Vec<char>)
    ensures
        final(out)@ == old(out)@ + decimal(n as nat),
    decreases n,
{
    if n < 10 {
        out.push(((n as u8) + 48) as char);
    } else {
        push_decimal(n / 10, out);
        out.push((((n % 10) as u8) + 48) as char);
    }
}

/// The decimal numeral of `n`.
pub fn decimal_chars(n: u64) -> (res: Vec<char>)
    ensures
        res@ == decimal(n as nat),
{
    let mut v: Vec<char> = Vec::new();
    push_decimal(n, &mut v);
    assert(v@ == Seq::<char>::empty() + decimal(n as nat));
    v
}

/// The decimal numeral of `n`, as a string.
pub fn u64_to_string(n: u64) -> (res: String)
    ensures
        res@ == decimal(n as nat),
{
    string_of(&decimal_chars(n))
}

proof fn lemma_digits_value_prefix(s: Seq<char>, k: int)
    requires
        0 <= k <= s.len(),
    ensures
        digits_value(s.take(k)) <= digits_value(s),
    decreases s.len() - k,
{
    if k < s.len() {
        lemma_digits_value_prefix(s, k + 1);
        assert(s.take(k + 1).drop_last() == s.take(k));
    } else {
        assert(s.take(k) == s);
    }
}

/// The value of `s` read as an unsigned decimal whose largest value is `max`, as `str::parse` reads it.
pub fn parse_unsigned_chars(s: &Vec<char>, max: u64) -> (res: Option<u64>)
    ensures
        match res {
            Some(v) => parse_unsigned(s@, max as nat) == Some(v as nat),
            None => parse_unsigned(s@, max as nat) is None,
        },
{
    let start: usize = if s.len() > 0 && s[0] == '+' { 1 } else { 0 };
    let ghost d = if s@.len() > 0 && s@[0] == '+' { s@.skip(1) } else { s@ };
    assert(d == s@.skip(start as int));
    if start >= s.len() {
        return None;
    }
    let mut value: u64 = 0;
    let mut i: usize = start;
    while i < s.len()
        invariant
            start <= i <= s.len(),
            d == s@.skip(start as int),
            d == (if s@.len() > 0 && s@[0] == '+' { s@.skip(1) } else { s@ }),
            all_digits(s@.subrange(start as int, i as int)),
            value as nat == digits_value(s@.subrange(start as int, i as int)),
            value <= max,
        decreases s.len() - i,
    {
        let c = s[i];
        assert(s@.subrange(start as int, i + 1).drop_last() == s@.subrange(start as int, i as int));
        if !('0' <= c && c <= '9') {
            assert(d[i - start] == c);
            assert(!is_digit(d[i - start]));
            assert(!all_digits(d));
            assert(parse_unsigned(s@, max as nat) is None);
            return None;
        }
        let dv: u64 = ((c as u32) - 48) as u64;
        if dv > max || value > (max - dv) / 10 {
            proof {
                assert(s@.subrange(start as int, i + 1) == d.take(i + 1 - start));
                lemma_digits_value_prefix(d, i + 1 - start);
                assert(digits_value(s@.subrange(start as int, i + 1)) == value * 10 + dv);
                if dv <= max {
                    assert(value * 10 + dv > max) by (nonlinear_arith)
                        requires value > (max - dv) / 10, dv <= max;
                }
            }
            return None;
        }
        proof {
            assert(value * 10 + dv <= max) by (nonlinear_arith)
                requires value <= (max - dv) / 10, dv <= max;
        }
        value = value * 10 + dv;
        i = i + 1;
    }
    assert(s@.subrange(start as int, s.len() as int) == d);
    Some(value)
}

/// The pieces of `s` between occurrences of `c`, as `str::split` with a character gives them.
pub open spec fn split_char(s: Seq<char>, c: char) -> Seq<Seq<char>>
    decreases s.len(),
{
    if s.len() == 0 {
        seq![Seq::<char>::empty()]
    } else {
        let r = split_char(s.drop_last(), c);
        if s.last() == c {
            r.push(Seq::<char>::empty())
        } else {
            r.update(r.len() - 1, r.last().push(s.last()))
        }
    }
}

/// Splitting always gives at least one piece.
pub proof fn lemma_split_char_nonempty(s: Seq<char>, c: char)
    ensures
        split_char(s, c).len() >= 1,
    decreases s.len(),
{
    if s.len() > 0 {
        lemma_split_char_nonempty(s.drop_last(), c);
    }
}

/// Splitting text in which `c` does not occur gives the text itself as the one piece.
pub proof fn lemma_split_without_separator(s: Seq<char>, c: char)
    requires
        !s.contains(c),
    ensures
        split_char(s, c) == seq![s],
    decreases s.len(),
{
    if s.len() > 0 {
        assert(!s.drop_last().contains(c)) by {
            if s.drop_last().contains(c) {
                let j = choose|j: int| 0 <= j < s.drop_last().len() && s.drop_last()[j] == c;
                assert(s[j] == c);
            }
        }
        lemma_split_without_separator(s.drop_last(), c);
        assert(s.last() != c) by {
            assert(s[s.len() - 1] == s.last());
        }
        let r = split_char(s.drop_last(), c);
        assert(r == seq![s.drop_last()]);
        assert(r.len() == 1);
        assert(r.last() == s.drop_last());
        assert(split_char(s, c) == r.update(0, s.drop_last().push(s.last())));
        assert(s.drop_last().push(s.last()) =~= s);
        assert(r.update(0, s) =~= seq![s]);
    } else {
        assert(s =~= Seq::<char>::empty());
    }
}

/// Splitting `a`, the separator, then `b` gives the pieces of `a` followed by the pieces of `b`.
pub proof fn lemma_split_concat(a: Seq<char>, c: char, b: Seq<char>)
    ensures
        split_char(a + seq![c] + b, c) == split_char(a, c) + split_char(b, c),
    decreases b.len(),
{
    lemma_split_char_nonempty(a, c);
    if b.len() == 0 {
        assert(a + seq![c] + b =~= a.push(c));
        assert(a.push(c).drop_last() =~= a);
        assert(split_char(a, c).push(Seq::<char>::empty()) =~= split_char(a, c) + seq![Seq::<char>::empty()]);
    } else {
        let s = a + seq![c] + b;
        assert(s.drop_last() =~= a + seq![c] + b.drop_last());
        lemma_split_concat(a, c, b.drop_last());
        lemma_split_char_nonempty(b.drop_last(), c);
        let ra = split_char(a, c);
        let rb = split_char(b.drop_last(), c);
        assert(s.last() == b.last());
        if b.last() == c {
            assert((ra + rb).push(Seq::<char>::empty()) =~= ra + rb.push(Seq::<char>::empty()));
        } else {
            assert((ra + rb).update((ra + rb).len() - 1, (ra + rb).last().push(b.last()))
                =~= ra + rb.update(rb.len() - 1, rb.last().push(b.last())));
        }
    }
}

/// The pieces of `s` between occurrences of `c`.
pub fn split_chars(s: &Vec<char>, c: char) -> (res: Vec<Vec<char>>)
    ensures
        res@.len() == split_char(s@, c).len(),
        forall|i: int| 0 <= i < res@.len() ==> (#[trigger] res@[i])@ == split_char(s@, c)[i],
{
    let mut done: Vec<Vec<char>> = Vec::new();
    let mut cur: Vec<char> = Vec::new();
    for i in 0..s.len()
        invariant
            done@.len() + 1 == split_char(s@.take(i as int), c).len(),
            forall|j: int| 0 <= j < done@.len() ==> (#[trigger] done@[j])@ == split_char(s@.take(i as int), c)[j],
            cur@ == split_char(s@.take(i as int), c).last(),
    {
        assert(s@.take(i + 1).drop_last() == s@.take(i as int));
        proof { lemma_split_char_nonempty(s@.take(i as int), c); }
        if s[i] == c {
            let finished = cur;
            done.push(finished);
            cur = Vec::new();
        } else {
            cur.push(s[i]);
        }
    }
    assert(s@.take(s.len() as int) == s@);
    done.push(cur);
    done
}

/// The index of the first occurrence of `c` in `s`, if any.
pub open spec fn first_index_of(s: Seq<char>, c: char) -> Option<int> {
    if s.contains(c) {
        Some(choose|i: int| 0 <= i < s.len() && s[i] == c && forall|j: int| 0 <= j < i ==> s[j] != c)
    } else {
        None
    }
}

/// The index of the first occurrence of `c` in `s`.
pub fn find_char(s: &Vec<char>, c: char) -> (res: Option<usize>)
    ensures
        match res {
            Some(i) => first_index_of(s@, c) == Some(i as int) && i < s@.len() && s@[i as int] == c,
            None => first_index_of(s@, c) is None,
        },
{
    for i in 0..s.len()
        invariant
            forall|j: int| 0 <= j < i ==> s@[j] != c,
    {
        if s[i] == c {
            proof {
                assert(s@.contains(c));
                let k = choose|k: int| 0 <= k < s@.len() && s@[k] == c && forall|j: int| 0 <= j < k ==> s@[j] != c;
                assert(0 <= k < s@.len() && s@[k] == c && forall|j: int| 0 <= j < k ==> s@[j] != c);
                if k < i {
                } else if k > i {
                    assert(s@[i as int] != c);
                }
            }
            return Some(i);
        }
    }
    assert(!s@.contains(c));
    None
}


/// Whether `a` and `b` hold the same characters.
pub fn chars_eq(a: &Vec<char>, b: &Vec<char>) -> (res: bool)
    ensures
        res == (a@ == b@),
{
    if a.len() != b.len() {
        return false;
    }
    for i in 0..a.len()
        invariant
            a.len() == b.len(),
            forall|j: int| 0 <= j < i ==> a@[j] == b@[j],
    {
        if a[i] != b[i] {
            return false;
        }
    }
    assert(a@ =~= b@);
    true
}

pub proof fn lemma_decimal_all_digits(n: nat)
    ensures
        decimal(n).len() > 0,
        all_digits(decimal(n)),
        digits_value(decimal(n)) == n,
        !decimal(n).contains('+'),
    decreases n,
{
    assert(((48 + n % 10) as char) as int == 48 + n % 10);
    if n < 10 {
        assert(decimal(n).drop_last() =~= Seq::<char>::empty());
        assert(digits_value(Seq::<char>::empty()) == 0);
    } else {
        lemma_decimal_all_digits(n / 10);
        let d = decimal(n);
        assert(d.drop_last() == decimal(n / 10));
        assert(d.last() == digit_char(n % 10));
        assert(digits_value(d) == digits_value(decimal(n / 10)) * 10 + n % 10);
        assert(n == (n / 10) * 10 + n % 10);
        assert forall|i: int| 0 <= i < d.len() implies is_digit(#[trigger] d[i]) by {
            if i < d.len() - 1 {
                assert(d[i] == decimal(n / 10)[i]);
            }
        }
    }
    let d = decimal(n);
    assert forall|i: int| 0 <= i < d.len() implies d[i] != '+' by {
        assert(is_digit(d[i]));
    }
}

/// The numeral that `decimal` writes reads back, through `parse_unsigned`, as the same number.
pub proof fn lemma_parse_decimal(n: nat, max: nat)
    requires
        n <= max,
    ensures
        parse_unsigned(decimal(n), max) == Some(n),
{
    lemma_decimal_all_digits(n);
    assert(decimal(n)[0] != '+') by {
        assert(is_digit(decimal(n)[0]));
    }
}


/// Appends the characters of `w` to `v`.
pub fn extend_chars(v: &mut Vec<char>, w: &Vec<char>)
    ensures
        final(v)@ == old(v)@ + w@,
{
    let ghost start = v@;
    for i in 0..w.len()
        invariant
            v@ == start + w@.take(i as int),
    {
        v.push(w[i]);
        assert(start + w@.take(i + 1) =~= (start + w@.take(i as int)).push(w@[i as int]));
    }
    assert(w@.take(w.len() as int) == w@);
}


/// A character that `char::is_whitespace` accepts (Unicode White_Space).
pub open spec fn is_whitespace(c: char) -> bool {
    c == ' ' || ('\t' <= c && c <= '\r') || c == '\u{85}' || c == '\u{a0}' || c == '\u{1680}'
        || ('\u{2000}' <= c && c <= '\u{200a}') || c == '\u{2028}' || c == '\u{2029}' || c == '\u{202f}'
        || c == '\u{205f}' || c == '\u{3000}'
}

/// Whether `c` is whitespace.
pub fn is_whitespace_char(c: char) -> (res: bool)
    ensures
        res == is_whitespace(c),
{
    c == ' ' || ('\t' <= c && c <= '\r') || c == '\u{85}' || c == '\u{a0}' || c == '\u{1680}'
        || ('\u{2000}' <= c && c <= '\u{200a}') || c == '\u{2028}' || c == '\u{2029}' || c == '\u{202f}'
        || c == '\u{205f}' || c == '\u{3000}'
}

/// `s` without leading whitespace.
pub open spec fn trim_start(s: Seq<char>) -> Seq<char>
    decreases s.len(),
{
    if s.len() > 0 && is_whitespace(s[0]) {
        trim_start(s.drop_first())
    } else {
        s
    }
}

/// `s` without trailing whitespace.
pub open spec fn trim_end(s: Seq<char>) -> Seq<char>
    decreases s.len(),
{
    if s.len() > 0 && is_whitespace(s.last()) {
        trim_end(s.drop_last())
    } else {
        s
    }
}

/// `s` without leading or trailing whitespace, as `str::trim` gives it.
pub open spec fn trim(s: Seq<char>) -> Seq<char> {
    trim_end(trim_start(s))
}

proof fn lemma_trim_start_keeps(s: Seq<char>, k: int)
    requires
        0 <= k < s.len(),
        !is_whitespace(s[k]),
    ensures
        exists|j: int| 0 <= j < trim_start(s).len() && !is_whitespace(#[trigger] trim_start(s)[j]),
    decreases s.len(),
{
    if is_whitespace(s[0]) {
        assert(k > 0);
        assert(s.drop_first()[k - 1] == s[k]);
        lemma_trim_start_keeps(s.drop_first(), k - 1);
        assert(trim_start(s) == trim_start(s.drop_first()));
        let j = choose|j: int| 0 <= j < trim_start(s.drop_first()).len() && !is_whitespace(#[trigger] trim_start(s.drop_first())[j]);
        assert(!is_whitespace(trim_start(s)[j]));
    } else {
        assert(trim_start(s)[k] == s[k]);
    }
}

proof fn lemma_trim_end_keeps(s: Seq<char>, k: int)
    requires
        0 <= k < s.len(),
        !is_whitespace(s[k]),
    ensures
        trim_end(s).len() > 0,
    decreases s.len(),
{
    if is_whitespace(s.last()) {
        assert(k < s.len() - 1);
        assert(s.drop_last()[k] == s[k]);
        lemma_trim_end_keeps(s.drop_last(), k);
    }
}

/// Text with a character that is not whitespace is not blank once trimmed.
pub proof fn lemma_trim_not_blank(s: Seq<char>, k: int)
    requires
        0 <= k < s.len(),
        !is_whitespace(s[k]),
    ensures
        trim(s).len() > 0,
{
    lemma_trim_start_keeps(s, k);
    let t = trim_start(s);
    let j = choose|j: int| 0 <= j < t.len() && !is_whitespace(#[trigger] t[j]);
    lemma_trim_end_keeps(t, j);
}

/// Appending text without the separator extends the last piece.
pub proof fn lemma_split_append(s: Seq<char>, c: char, w: Seq<char>)
    requires
        !w.contains(c),
    ensures
        split_char(s + w, c) == split_char(s, c).update(split_char(s, c).len() - 1, split_char(s, c).last() + w),
    decreases w.len(),
{
    lemma_split_char_nonempty(s, c);
    if w.len() == 0 {
        assert(s + w =~= s);
        assert(split_char(s, c).last() + w =~= split_char(s, c).last());
        assert(split_char(s, c).update(split_char(s, c).len() - 1, split_char(s, c).last()) =~= split_char(s, c));
    } else {
        let w0 = w.drop_last();
        assert(!w0.contains(c)) by {
            if w0.contains(c) {
                let j = choose|j: int| 0 <= j < w0.len() && w0[j] == c;
                assert(w[j] == c);
            }
        }
        lemma_split_append(s, c, w0);
        assert((s + w).drop_last() =~= s + w0);
        assert((s + w).last() == w.last());
        assert(w.last() != c) by {
            assert(w[w.len() - 1] == w.last());
        }
        let r = split_char(s, c);
        assert(split_char(s + w0, c).last() == r.last() + w0);
        assert((r.last() + w0).push(w.last()) =~= r.last() + w);
        assert(r.update(r.len() - 1, r.last() + w0).update(r.len() - 1, r.last() + w) =~= r.update(r.len() - 1, r.last() + w));
    }
}

/// `s` without leading or trailing whitespace.
pub fn trim_chars(s: &Vec<char>) -> (res: Vec<char>)
    ensures
        res@ == trim(s@),
{
    let mut lo: usize = 0;
    assert(s@.subrange(0, s@.len() as int) == s@);
    while lo < s.len() && is_whitespace_char(s[lo])
        invariant
            lo <= s.len(),
            trim_start(s@) == trim_start(s@.subrange(lo as int, s@.len() as int)),
        decreases s.len() - lo,
    {
        assert(s@.subrange(lo as int, s@.len() as int).drop_first() == s@.subrange(lo + 1, s@.len() as int));
        lo = lo + 1;
    }
    let mut hi: usize = s.len();
    assert(trim_start(s@) == s@.subrange(lo as int, s@.len() as int));
    while hi > lo && is_whitespace_char(s[hi - 1])
        invariant
            lo <= hi <= s.len(),
            trim(s@) == trim_end(s@.subrange(lo as int, hi as int)),
        decreases hi - lo,
    {
        assert(s@.subrange(lo as int, hi as int).drop_last() == s@.subrange(lo as int, hi - 1));
        hi = hi - 1;
    }
    let mut out: Vec<char> = Vec::new();
    let mut i = lo;
    while i < hi
        invariant
            lo <= i <= hi <= s.len(),
            out@ == s@.subrange(lo as int, i as int),
        decreases hi - i,
    {
        out.push(s[i]);
        assert(s@.subrange(lo as int, i + 1) == s@.subrange(lo as int, i as int).push(s@[i as int]));
        i = i + 1;
    }
    out
}

} // verus!
