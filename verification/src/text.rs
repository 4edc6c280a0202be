//! Character-level text handling with specifications: splitting, trimming and
//! decimal integer parsing, stated over the characters of a string.
use vstd::prelude::*;

verus! {

/// The characters of `s`, in order.
pub fn chars_of(s: &str) -> (cs: Vec<char>)
    ensures
        cs@ == s@,
{
    let mut cs: Vec<char> = Vec::new();
    for c in it: s.chars()
        invariant
            it.seq() == s@,
            cs@ == it.seq().take(it.index() as int),
    {
        cs.push(c);
    }
    cs
}

/// The characters of `s` from position `from` up to, not including, `to`.
pub fn substring(s: &str, from: usize, to: usize) -> (r: String)
    requires
        from <= to <= s@.len(),
    ensures
        r@ == s@.subrange(from as int, to as int),
{
    s.substring_char(from, to).to_owned()
}

/// Whether `a` and `b` hold the same characters.
pub fn same_text(a: &str, b: &str) -> (r: bool)
    ensures
        r == (a@ == b@),
{
    let ac = chars_of(a);
    let bc = chars_of(b);
    if ac.len() != bc.len() {
        return false;
    }
    let mut i: usize = 0;
    while i < ac.len()
        invariant
            ac@ == a@,
            bc@ == b@,
            ac@.len() == bc@.len(),
            i <= ac@.len(),
            forall|j: int| 0 <= j < i ==> ac@[j] == bc@[j],
        decreases ac@.len() - i,
    {
        if ac[i] != bc[i] {
            return false;
        }
        i += 1;
    }
    assert(ac@ =~= bc@);
    true
}

/// `pat` occurs in `s` starting at position `i`.
pub open spec fn occurs_at(s: Seq<char>, pat: Seq<char>, i: int) -> bool {
    0 <= i && i + pat.len() <= s.len() && s.subrange(i, i + pat.len()) == pat
}

/// `i` is the leftmost position where `pat` occurs in `s`.
pub open spec fn is_first_occurrence(s: Seq<char>, pat: Seq<char>, i: int) -> bool {
    occurs_at(s, pat, i) && forall|j: int| 0 <= j < i ==> !#[trigger] occurs_at(s, pat, j)
}

/// The leftmost position where `pat` occurs in `s`, if it occurs at all.
pub open spec fn first_occurrence(s: Seq<char>, pat: Seq<char>) -> Option<int> {
    if exists|i: int| #[trigger] occurs_at(s, pat, i) {
        Some(choose|i: int| is_first_occurrence(s, pat, i))
    } else {
        None
    }
}

/// `s` split around the leftmost occurrence of `pat` (the pattern itself dropped).
pub open spec fn split_once(s: Seq<char>, pat: Seq<char>) -> Option<(Seq<char>, Seq<char>)> {
    match first_occurrence(s, pat) {
        Some(i) => Some((s.take(i), s.skip(i + pat.len()))),
        None => None,
    }
}

/// A leftmost occurrence is the one `first_occurrence` reports.
pub proof fn lemma_first_occurrence_is(s: Seq<char>, pat: Seq<char>, i: int)
    requires
        is_first_occurrence(s, pat, i),
    ensures
        first_occurrence(s, pat) == Some(i),
{
    assert(occurs_at(s, pat, i));
    let k = choose|k: int| is_first_occurrence(s, pat, k);
    assert(is_first_occurrence(s, pat, k));
    if k < i {
        assert(!occurs_at(s, pat, k));
    }
    if i < k {
        assert(!occurs_at(s, pat, i));
    }
}

/// The leftmost occurrence of `pat` in `cs` at or after position `start`.
pub fn find_from(cs: &Vec<char>, start: usize, pat: &Vec<char>) -> (r: Option<usize>)
    requires
        start <= cs@.len(),
        pat@.len() > 0,
    ensures
        match r {
            Some(i) => start <= i && i + pat@.len() <= cs@.len() && first_occurrence(cs@.skip(start as int), pat@) == Some(
                i - start,
            ),
            None => first_occurrence(cs@.skip(start as int), pat@) is None,
        },
{
    let ghost s = cs@.skip(start as int);
    let n = cs.len();
    let m = pat.len();
    let mut i: usize = start;
    if m > n {
        proof {
            assert forall|j: int| !#[trigger] occurs_at(s, pat@, j) by {}
        }
        return None;
    }
    while i <= n - m
        invariant
            m <= n,
            start <= i,
            n == cs@.len(),
            m == pat@.len(),
            m > 0,
            s == cs@.skip(start as int),
            forall|j: int| 0 <= j < i - start ==> !#[trigger] occurs_at(s, pat@, j),
        decreases n - i,
    {
        let mut k: usize = 0;
        let mut matched = true;
        while k < m
            invariant
                k <= m,
                i + m <= n,
                n == cs@.len(),
                m == pat@.len(),
                matched == forall|t: int| 0 <= t < k ==> cs@[i + t] == pat@[t],
            decreases m - k,
        {
            if cs[i + k] != pat[k] {
                matched = false;
            }
            k += 1;
        }
        proof {
            let rel = i - start;
            assert(s.subrange(rel, rel + m) =~= cs@.subrange(i as int, i + m));
            if matched {
                assert(cs@.subrange(i as int, i + m) =~= pat@);
            } else {
                let t = choose|t: int| 0 <= t < m && cs@[i + t] != pat@[t];
                assert(s.subrange(rel, rel + m)[t] != pat@[t]);
            }
        }
        if matched {
            proof {
                lemma_first_occurrence_is(s, pat@, i - start);
            }
            return Some(i);
        }
        i += 1;
    }
    proof {
        assert forall|j: int| !#[trigger] occurs_at(s, pat@, j) by {
            if 0 <= j && j + m <= s.len() {
                assert(j < i - start);
            }
        }
    }
    None
}

/// Splits `s` around the leftmost occurrence of `pat`.
pub fn split_once_str(s: &str, pat: &str) -> (r: Option<(String, String)>)
    ensures
        match r {
            Some((a, b)) => split_once(s@, pat@) == Some((a@, b@)),
            None => split_once(s@, pat@) is None,
        },
{
    let cs = chars_of(s);
    let pc = chars_of(pat);
    if pc.len() == 0 {
        proof {
            assert(s@.subrange(0, 0) =~= pat@);
            assert(occurs_at(s@, pat@, 0));
            lemma_first_occurrence_is(s@, pat@, 0);
            assert(s@.take(0) =~= Seq::<char>::empty());
            assert(s@.skip(0) =~= s@);
        }
        return Some((String::new(), s.to_owned()));
    }
    proof {
        assert(cs@.skip(0) =~= cs@);
    }
    match find_from(&cs, 0, &pc) {
        Some(i) => {
            let n = cs.len();
            let a = substring(s, 0, i);
            let b = substring(s, i + pc.len(), n);
            proof {
                assert(a@ =~= s@.take(i as int));
                assert(b@ =~= s@.skip(i + pc@.len()));
            }
            Some((a, b))
        },
        None => None,
    }
}

/// The pattern made of the single character `c`.
pub open spec fn single(c: char) -> Seq<char> {
    seq![c]
}

/// Splits `s` around the leftmost occurrence of character `c`.
pub fn split_once_char(s: &str, c: char) -> (r: Option<(String, String)>)
    ensures
        match r {
            Some((a, b)) => split_once(s@, single(c)) == Some((a@, b@)),
            None => split_once(s@, single(c)) is None,
        },
{
    let cs = chars_of(s);
    let mut pc: Vec<char> = Vec::new();
    pc.push(c);
    proof {
        assert(cs@.skip(0) =~= cs@);
        assert(pc@ =~= single(c));
    }
    match find_from(&cs, 0, &pc) {
        Some(i) => {
            let n = cs.len();
            let a = substring(s, 0, i);
            let b = substring(s, i + 1, n);
            proof {
                assert(a@ =~= s@.take(i as int));
                assert(b@ =~= s@.skip(i + 1));
            }
            Some((a, b))
        },
        None => None,
    }
}

/// At most `n` pieces of `s`, cut at the leftmost occurrences of `c`; the last piece
/// keeps the rest of the text.
pub open spec fn split_n(s: Seq<char>, n: nat, c: char) -> Seq<Seq<char>>
    decreases n,
{
    if n <= 1 {
        seq![s]
    } else {
        match split_once(s, single(c)) {
            Some((a, b)) => seq![a] + split_n(b, (n - 1) as nat, c),
            None => seq![s],
        }
    }
}

/// The views of a vector of strings.
pub open spec fn views(v: Seq<String>) -> Seq<Seq<char>> {
    v.map_values(|x: String| x@)
}

/// Cuts `s` into at most `n` pieces at the leftmost occurrences of `c`.
pub fn split_n_str(s: &str, n: usize, c: char) -> (pieces: Vec<String>)
    ensures
        views(pieces@) == split_n(s@, n as nat, c),
    decreases n,
{
    if n <= 1 {
        let mut pieces: Vec<String> = Vec::new();
        pieces.push(s.to_owned());
        proof {
            assert(views(pieces@) =~= seq![s@]);
        }
        return pieces;
    }
    match split_once_char(s, c) {
        Some((a, b)) => {
            let mut rest = split_n_str(b.as_str(), n - 1, c);
            let mut pieces: Vec<String> = Vec::new();
            pieces.push(a);
            let ghost first = pieces@;
            let ghost tail = rest@;
            pieces.append(&mut rest);
            proof {
                assert(views(pieces@) =~= seq![first[0]@] + views(tail));
            }
            pieces
        },
        None => {
            let mut pieces: Vec<String> = Vec::new();
            pieces.push(s.to_owned());
            proof {
                assert(views(pieces@) =~= seq![s@]);
            }
            pieces
        },
    }
}

/// A decimal digit.
pub open spec fn is_digit(c: char) -> bool {
    '0' <= c && c <= '9'
}

/// Every character of `s` is a decimal digit.
pub open spec fn all_digits(s: Seq<char>) -> bool {
    forall|i: int| 0 <= i < s.len() ==> #[trigger] is_digit(s[i])
}

/// The number that the digits `s` spell in base ten.
pub open spec fn digits_value(s: Seq<char>) -> nat
    decreases s.len(),
{
    if s.len() == 0 {
        0
    } else {
        digits_value(s.drop_last()) * 10 + ((s.last() as int - '0' as int) as nat)
    }
}

/// `s` without one leading `+` sign, if it has one.
pub open spec fn without_plus(s: Seq<char>) -> Seq<char> {
    if s.len() > 0 && s[0] == '+' { s.drop_first() } else { s }
}

/// Decimal text as an unsigned 64-bit number: an optional `+`, then one or more digits,
/// and a value that fits.
pub open spec fn parse_u64_spec(s: Seq<char>) -> Option<u64> {
    let body = without_plus(s);
    if body.len() > 0 && all_digits(body) && digits_value(body) <= u64::MAX {
        Some(digits_value(body) as u64)
    } else {
        None
    }
}

/// Decimal text as a signed 64-bit number: an optional `+` or `-`, then one or more
/// digits, and a value that fits.
pub open spec fn parse_i64_spec(s: Seq<char>) -> Option<i64> {
    if s.len() > 0 && s[0] == '-' {
        let body = s.drop_first();
        if body.len() > 0 && all_digits(body) && digits_value(body) <= 0x8000_0000_0000_0000 {
            Some((-(digits_value(body) as int)) as i64)
        } else {
            None
        }
    } else {
        let body = without_plus(s);
        if body.len() > 0 && all_digits(body) && digits_value(body) <= i64::MAX {
            Some(digits_value(body) as i64)
        } else {
            None
        }
    }
}

/// The digits of a prefix never spell more than the whole.
pub proof fn lemma_digits_value_prefix(s: Seq<char>, k: int)
    requires
        all_digits(s),
        0 <= k <= s.len(),
    ensures
        digits_value(s.take(k)) <= digits_value(s),
    decreases s.len() - k,
{
    if k < s.len() {
        lemma_digits_value_prefix(s, k + 1);
        assert(s.take(k + 1).drop_last() =~= s.take(k));
        assert(is_digit(s[k]));
    } else {
        assert(s.take(k) =~= s);
    }
}

/// The value of one digit.
fn digit_value(c: char) -> (d: u8)
    requires
        is_digit(c),
    ensures
        d as int == c as int - '0' as int,
{
    (c as u32 - '0' as u32) as u8
}

/// Parses decimal text as an unsigned 64-bit number.
pub fn parse_u64(s: &str) -> (r: Option<u64>)
    ensures
        r == parse_u64_spec(s@),
{
    let cs = chars_of(s);
    let n = cs.len();
    let start: usize = if n > 0 && cs[0] == '+' { 1 } else { 0 };
    let ghost body = without_plus(s@);
    proof {
        assert(body =~= cs@.skip(start as int));
    }
    if start == n {
        return None;
    }
    let mut acc: u64 = 0;
    let mut i: usize = start;
    while i < n
        invariant
            start <= i <= n,
            n == cs@.len(),
            body == cs@.skip(start as int),
            body == without_plus(s@),
            cs@ == s@,
            all_digits(body.take(i - start)),
            acc as nat == digits_value(body.take(i - start)),
        decreases n - i,
    {
        let c = cs[i];
        if !('0' <= c && c <= '9') {
            proof {
                assert(body[i - start] == c);
                assert(!is_digit(body[i - start]));
            }
            return None;
        }
        let d = digit_value(c);
        proof {
            assert(body.take(i - start + 1).drop_last() =~= body.take(i - start));
            assert(body.take(i - start + 1).last() == c);
        }
        let next = match acc.checked_mul(10) {
            Some(t) => t.checked_add(d as u64),
            None => None,
        };
        match next {
            Some(v) => {
                acc = v;
            },
            None => {
                proof {
                    assert(digits_value(body.take(i - start + 1)) == digits_value(body.take(i - start)) * 10 + d);
                    if all_digits(body) {
                        lemma_digits_value_prefix(body, i - start + 1);
                    }
                }
                return None;
            },
        }
        i += 1;
    }
    proof {
        assert(body.take(n - start) =~= body);
    }
    Some(acc)
}

/// Parses decimal text as a signed 64-bit number.
pub fn parse_i64(s: &str) -> (r: Option<i64>)
    ensures
        r == parse_i64_spec(s@),
{
    let cs = chars_of(s);
    let n = cs.len();
    let negative = n > 0 && cs[0] == '-';
    let start: usize = if n > 0 && (cs[0] == '+' || cs[0] == '-') { 1 } else { 0 };
    let ghost body = if negative { s@.drop_first() } else { without_plus(s@) };
    proof {
        assert(body =~= cs@.skip(start as int));
    }
    if start == n {
        return None;
    }
    let mut acc: i64 = 0;
    let mut i: usize = start;
    while i < n
        invariant
            start <= i <= n,
            n == cs@.len(),
            body == cs@.skip(start as int),
            cs@ == s@,
            negative == (s@.len() > 0 && s@[0] == '-'),
            body == if negative { s@.drop_first() } else { without_plus(s@) },
            all_digits(body.take(i - start)),
            negative ==> acc as int == -(digits_value(body.take(i - start)) as int),
            !negative ==> acc as int == digits_value(body.take(i - start)),
        decreases n - i,
    {
        let c = cs[i];
        if !('0' <= c && c <= '9') {
            proof {
                assert(body[i - start] == c);
                assert(!is_digit(body[i - start]));
            }
            return None;
        }
        let d = digit_value(c);
        proof {
            assert(body.take(i - start + 1).drop_last() =~= body.take(i - start));
            assert(body.take(i - start + 1).last() == c);
        }
        let next = match acc.checked_mul(10) {
            Some(t) => if negative {
                t.checked_sub(d as i64)
            } else {
                t.checked_add(d as i64)
            },
            None => None,
        };
        match next {
            Some(v) => {
                acc = v;
            },
            None => {
                proof {
                    assert(digits_value(body.take(i - start + 1)) == digits_value(body.take(i - start)) * 10 + d);
                    if all_digits(body) {
                        lemma_digits_value_prefix(body, i - start + 1);
                    }
                }
                return None;
            },
        }
        i += 1;
    }
    proof {
        assert(body.take(n - start) =~= body);
    }
    Some(acc)
}

/// Unicode white space, as `char::is_whitespace` classifies it.
pub open spec fn is_ws(c: char) -> bool {
    ||| ('\u{9}' <= c && c <= '\u{d}')
    ||| c == ' '
    ||| c == '\u{85}'
    ||| c == '\u{a0}'
    ||| c == '\u{1680}'
    ||| ('\u{2000}' <= c && c <= '\u{200a}')
    ||| c == '\u{2028}'
    ||| c == '\u{2029}'
    ||| c == '\u{202f}'
    ||| c == '\u{205f}'
    ||| c == '\u{3000}'
}

/// Whether `c` is white space.
pub fn is_whitespace(c: char) -> (r: bool)
    ensures
        r == is_ws(c),
{
    ('\u{9}' <= c && c <= '\u{d}') || c == ' ' || c == '\u{85}' || c == '\u{a0}' || c == '\u{1680}' || ('\u{2000}'
        <= c && c <= '\u{200a}') || c == '\u{2028}' || c == '\u{2029}' || c == '\u{202f}' || c == '\u{205f}' || c
        == '\u{3000}'
}

/// `s` without trailing white space.
pub open spec fn trim_end_spec(s: Seq<char>) -> Seq<char>
    decreases s.len(),
{
    if s.len() > 0 && is_ws(s.last()) {
        trim_end_spec(s.drop_last())
    } else {
        s
    }
}

/// `s` without trailing white space.
pub fn trim_end(s: &str) -> (r: String)
    ensures
        r@ == trim_end_spec(s@),
{
    let cs = chars_of(s);
    let mut end = cs.len();
    proof {
        assert(cs@.take(end as int) =~= cs@);
    }
    while end > 0 && is_whitespace(cs[end - 1])
        invariant
            end <= cs@.len(),
            trim_end_spec(cs@) == trim_end_spec(cs@.take(end as int)),
        decreases end,
    {
        proof {
            assert(cs@.take(end as int).drop_last() =~= cs@.take(end - 1));
        }
        end -= 1;
    }
    proof {
        assert(trim_end_spec(cs@.take(end as int)) == cs@.take(end as int));
        assert(cs@.take(cs@.len() as int) =~= cs@);
    }
    substring(s, 0, end)
}

/// `s` without leading white space.
pub open spec fn skip_ws(s: Seq<char>) -> Seq<char>
    decreases s.len(),
{
    if s.len() > 0 && is_ws(s[0]) {
        skip_ws(s.drop_first())
    } else {
        s
    }
}

/// The longest prefix of `s` without white space.
pub open spec fn word_prefix(s: Seq<char>) -> Seq<char>
    decreases s.len(),
{
    if s.len() > 0 && !is_ws(s[0]) {
        seq![s[0]] + word_prefix(s.drop_first())
    } else {
        Seq::empty()
    }
}

/// The white-space-separated words of `s`, in order (as `str::split_whitespace` gives them).
pub open spec fn words(s: Seq<char>) -> Seq<Seq<char>>
    decreases s.len(),
{
    let r = skip_ws(s);
    if r.len() == 0 {
        Seq::empty()
    } else {
        let w = word_prefix(r);
        proof {
            lemma_skip_ws(s);
            lemma_word_prefix(r);
        }
        seq![w] + words(r.skip(w.len() as int))
    }
}

/// Skipping leading white space keeps a suffix.
pub proof fn lemma_skip_ws(s: Seq<char>)
    ensures
        skip_ws(s).len() <= s.len(),
        skip_ws(s) == s.skip(s.len() - skip_ws(s).len()),
        skip_ws(s).len() > 0 ==> !is_ws(skip_ws(s)[0]),
    decreases s.len(),
{
    if s.len() > 0 && is_ws(s[0]) {
        lemma_skip_ws(s.drop_first());
        assert(s.drop_first().skip(s.drop_first().len() - skip_ws(s).len()) =~= s.skip(s.len() - skip_ws(s).len()));
    } else {
        assert(s.skip(0) =~= s);
    }
}

/// A word is a non-empty prefix when the text starts with a non-space.
pub proof fn lemma_word_prefix(s: Seq<char>)
    ensures
        word_prefix(s).len() <= s.len(),
        word_prefix(s) == s.take(word_prefix(s).len() as int),
        s.len() > 0 && !is_ws(s[0]) ==> word_prefix(s).len() > 0,
        forall|i: int| 0 <= i < word_prefix(s).len() ==> !is_ws(#[trigger] s[i]),
        word_prefix(s).len() < s.len() ==> is_ws(s[word_prefix(s).len() as int]),
    decreases s.len(),
{
    if s.len() > 0 && !is_ws(s[0]) {
        lemma_word_prefix(s.drop_first());
        let w = word_prefix(s.drop_first());
        assert(seq![s[0]] + w =~= s.take(w.len() + 1 as int));
        assert forall|i: int| 0 <= i < word_prefix(s).len() implies !is_ws(#[trigger] s[i]) by {
            if i > 0 {
                assert(s[i] == s.drop_first()[i - 1]);
            }
        }
    } else {
        assert(s.take(0) =~= Seq::<char>::empty());
    }
}

/// Where a pattern occurs, it has a leftmost occurrence.
pub proof fn lemma_first_occurrence_exists(s: Seq<char>, pat: Seq<char>, i: int)
    requires
        occurs_at(s, pat, i),
    ensures
        exists|k: int| is_first_occurrence(s, pat, k),
        first_occurrence(s, pat) is Some,
        0 <= first_occurrence(s, pat)->0 <= i,
        is_first_occurrence(s, pat, first_occurrence(s, pat)->0),
    decreases i,
{
    if exists|j: int| 0 <= j < i && #[trigger] occurs_at(s, pat, j) {
        let j = choose|j: int| 0 <= j < i && #[trigger] occurs_at(s, pat, j);
        lemma_first_occurrence_exists(s, pat, j);
    } else {
        assert(is_first_occurrence(s, pat, i));
        lemma_first_occurrence_is(s, pat, i);
    }
}

/// Splitting once cuts the text into the part before the pattern, the pattern, and the
/// rest; the part before holds no occurrence of the pattern.
pub proof fn lemma_split_once_parts(s: Seq<char>, pat: Seq<char>)
    requires
        split_once(s, pat) is Some,
    ensures
        split_once(s, pat) matches Some((before, after)) && s == before + pat + after,
{
    let i0 = choose|i: int| #[trigger] occurs_at(s, pat, i);
    lemma_first_occurrence_exists(s, pat, i0);
    let i = first_occurrence(s, pat)->0;
    assert(s.subrange(i, i + pat.len()) == pat);
    assert(s =~= s.take(i) + pat + s.skip(i + pat.len()));
}

/// Text made of a part without the pattern's first character, the pattern and a rest
/// splits once into exactly that part and that rest.
pub proof fn lemma_split_once_concat(a: Seq<char>, pat: Seq<char>, b: Seq<char>)
    requires
        pat.len() > 0,
        forall|k: int| 0 <= k < a.len() ==> a[k] != pat[0],
    ensures
        split_once(a + pat + b, pat) == Some((a, b)),
{
    let s = a + pat + b;
    assert(s.subrange(a.len() as int, (a.len() + pat.len()) as int) =~= pat);
    assert forall|j: int| 0 <= j < a.len() implies !#[trigger] occurs_at(s, pat, j) by {
        if occurs_at(s, pat, j) {
            assert(s.subrange(j, j + pat.len())[0] == s[j]);
        }
    }
    assert(is_first_occurrence(s, pat, a.len() as int));
    lemma_first_occurrence_is(s, pat, a.len() as int);
    assert(s.take(a.len() as int) =~= a);
    assert(s.skip((a.len() + pat.len()) as int) =~= b);
}

/// A line without its terminating carriage return, if it has one.
pub open spec fn without_cr(line: Seq<char>) -> Seq<char> {
    if line.len() > 0 && line.last() == '\r' { line.drop_last() } else { line }
}

/// The lines of `s`, as `str::lines` gives them: cut at each line feed, a carriage
/// return just before a line feed dropped, and no empty line after a final line feed.
pub open spec fn lines_spec(s: Seq<char>) -> Seq<Seq<char>>
    decreases s.len(),
{
    if s.len() == 0 {
        Seq::empty()
    } else {
        match first_occurrence(s, single('\n')) {
            Some(i) => {
                proof {
                    let w = choose|w: int| #[trigger] occurs_at(s, single('\n'), w);
                    lemma_first_occurrence_exists(s, single('\n'), w);
                }
                seq![without_cr(s.take(i))] + lines_spec(s.skip(i + 1))
            },
            None => seq![s],
        }
    }
}

/// The lines of `s`.
pub fn lines(s: &str) -> (ls: Vec<String>)
    ensures
        views(ls@) == lines_spec(s@),
{
    let cs = chars_of(s);
    let n = cs.len();
    let mut nl: Vec<char> = Vec::new();
    nl.push('\n');
    proof {
        assert(nl@ =~= single('\n'));
        assert(s@.skip(0) =~= s@);
    }
    let mut out: Vec<String> = Vec::new();
    let mut start: usize = 0;
    while start < n
        invariant
            start <= n,
            n == cs@.len(),
            cs@ == s@,
            nl@ == single('\n'),
            views(out@) + lines_spec(s@.skip(start as int)) == lines_spec(s@),
        decreases n - start,
    {
        let ghost t = s@.skip(start as int);
        match find_from(&cs, start, &nl) {
            Some(i) => {
                let mut end = i;
                if end > start && cs[end - 1] == '\r' {
                    end = end - 1;
                }
                let line = substring(s, start, end);
                proof {
                    let j = i - start;
                    let w = choose|w: int| #[trigger] occurs_at(t, single('\n'), w);
                    lemma_first_occurrence_exists(t, single('\n'), w);
                    assert(s@.subrange(start as int, i as int) =~= t.take(j));
                    assert(line@ =~= without_cr(t.take(j)));
                    assert(t.skip(j + 1) =~= s@.skip(i + 1));
                    assert(views(out@.push(line)) =~= views(out@).push(line@));
                    assert(lines_spec(t) == seq![line@] + lines_spec(s@.skip(i + 1)));
                    assert(views(out@.push(line)) + lines_spec(s@.skip(i + 1)) =~= views(out@) + lines_spec(t));
                }
                out.push(line);
                start = i + 1;
            },
            None => {
                let line = substring(s, start, n);
                proof {
                    assert(line@ =~= t);
                    assert(lines_spec(t) == seq![t]);
                    assert(s@.skip(n as int) =~= Seq::<char>::empty());
                    assert(views(out@.push(line)) =~= views(out@).push(line@));
                    assert(views(out@.push(line)) + lines_spec(s@.skip(n as int)) =~= views(out@) + lines_spec(t));
                }
                out.push(line);
                start = n;
            },
        }
    }
    proof {
        assert(s@.skip(n as int) =~= Seq::<char>::empty());
        assert(views(out@) + lines_spec(s@.skip(n as int)) =~= views(out@));
    }
    out
}

/// Leading white space up to position `k` is what `skip_ws` drops.
pub proof fn lemma_skip_ws_at(t: Seq<char>, k: int)
    requires
        0 <= k <= t.len(),
        forall|j: int| 0 <= j < k ==> is_ws(#[trigger] t[j]),
        k == t.len() || !is_ws(t[k]),
    ensures
        skip_ws(t) == t.skip(k),
    decreases k,
{
    if k == 0 {
        assert(t.skip(0) =~= t);
    } else {
        let u = t.drop_first();
        assert forall|j: int| 0 <= j < k - 1 implies is_ws(#[trigger] u[j]) by {
            assert(u[j] == t[j + 1]);
        }
        if k - 1 < u.len() {
            assert(u[k - 1] == t[k]);
        }
        lemma_skip_ws_at(u, k - 1);
        assert(u.skip(k - 1) =~= t.skip(k));
    }
}

/// A run of non-space characters ended by a space or the end is what `word_prefix` takes.
pub proof fn lemma_word_prefix_at(t: Seq<char>, k: int)
    requires
        0 <= k <= t.len(),
        forall|j: int| 0 <= j < k ==> !is_ws(#[trigger] t[j]),
        k == t.len() || is_ws(t[k]),
    ensures
        word_prefix(t) == t.take(k),
    decreases k,
{
    if k == 0 {
        assert(t.take(0) =~= Seq::<char>::empty());
    } else {
        let u = t.drop_first();
        assert forall|j: int| 0 <= j < k - 1 implies !is_ws(#[trigger] u[j]) by {
            assert(u[j] == t[j + 1]);
        }
        if k - 1 < u.len() {
            assert(u[k - 1] == t[k]);
        }
        lemma_word_prefix_at(u, k - 1);
        assert(seq![t[0]] + u.take(k - 1) =~= t.take(k));
    }
}

/// The white-space-separated words of `s`.
#[verifier::spinoff_prover]
#[verifier::rlimit(40)]
pub fn split_words(s: &str) -> (ws: Vec<String>)
    ensures
        views(ws@) == words(s@),
{
    let cs = chars_of(s);
    let n = cs.len();
    let mut out: Vec<String> = Vec::new();
    let mut p: usize = 0;
    proof {
        assert(s@.skip(0) =~= s@);
    }
    while p < n
        invariant
            p <= n,
            n == cs@.len(),
            cs@ == s@,
            views(out@) + words(s@.skip(p as int)) == words(s@),
        decreases n - p,
    {
        let ghost t = s@.skip(p as int);
        let mut q = p;
        while q < n && is_whitespace(cs[q])
            invariant
                p <= q <= n,
                n == cs@.len(),
                forall|j: int| p <= j < q ==> is_ws(#[trigger] cs@[j]),
            decreases n - q,
        {
            q += 1;
        }
        proof {
            assert forall|j: int| 0 <= j < q - p implies is_ws(#[trigger] t[j]) by {
                assert(t[j] == cs@[p + j]);
            }
            if q < n {
                assert(t[q - p] == cs@[q as int]);
            }
            lemma_skip_ws_at(t, q - p);
            assert(t.skip(q - p) =~= s@.skip(q as int));
        }
        if q == n {
            proof {
                assert(s@.skip(q as int).len() == 0);
                assert(words(t) =~= Seq::<Seq<char>>::empty());
                assert(views(out@) + words(s@.skip(n as int)) =~= views(out@) + words(t)) by {
                    assert(s@.skip(n as int) =~= Seq::<char>::empty());
                    assert(words(s@.skip(n as int)) =~= Seq::<Seq<char>>::empty());
                }
            }
            p = n;
        } else {
            let mut e = q;
            while e < n && !is_whitespace(cs[e])
                invariant
                    q <= e <= n,
                    n == cs@.len(),
                    forall|j: int| q <= j < e ==> !is_ws(#[trigger] cs@[j]),
                decreases n - e,
            {
                e += 1;
            }
            let w = substring(s, q, e);
            proof {
                let r = s@.skip(q as int);
                assert forall|j: int| 0 <= j < e - q implies !is_ws(#[trigger] r[j]) by {
                    assert(r[j] == cs@[q + j]);
                }
                if e < n {
                    assert(r[e - q] == cs@[e as int]);
                }
                lemma_word_prefix_at(r, e - q);
                assert(w@ =~= r.take(e - q));
                assert(r.skip(e - q) =~= s@.skip(e as int));
                assert(skip_ws(t) == r);
                assert(words(t) == seq![w@] + words(s@.skip(e as int)));
                assert(views(out@.push(w)) =~= views(out@).push(w@));
                assert(views(out@.push(w)) + words(s@.skip(e as int)) =~= views(out@) + words(t));
            }
            out.push(w);
            p = e;
        }
    }
    proof {
        assert(s@.skip(n as int) =~= Seq::<char>::empty());
        assert(words(s@.skip(n as int)) =~= Seq::<Seq<char>>::empty());
        assert(views(out@) + words(s@.skip(n as int)) =~= views(out@));
    }
    out
}

} // verus!
