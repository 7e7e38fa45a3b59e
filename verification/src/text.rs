//! Text as sequences of characters: searching, trimming, decimal numbers.

use vstd::prelude::*;
use vstd::slice::slice_subrange;

verus! {

/// What [`str::to_lowercase`] makes of a text.
pub uninterp spec fn lowercase(s: Seq<char>) -> Seq<char>;

/// [`str::to_lowercase`]: the result depends on the text alone, and an empty text
/// stays empty. Which character becomes which is left to the Unicode tables of std.
pub assume_specification[ str::to_lowercase ](s: &str) -> (r: String)
    ensures
        r@ == lowercase(s@),
        s@.len() == 0 ==> r@.len() == 0,
;

/// [`String::push`]: appends one character.
pub assume_specification[ String::push ](s: &mut String, c: char)
    ensures
        final(s)@ == old(s)@.push(c),
;

/// The characters of `s`, one by one.
pub fn chars_of(s: &str) -> (v: Vec<char>)
    ensures
        v@ == s@,
{
    let mut v: Vec<char> = Vec::new();
    for c in it: s.chars()
        invariant
            v@ == it.seq().take(it.index()),
            it.seq() == s@,
    {
        v.push(c);
    }
    v
}

/// The string made of `chars`.
pub fn string_of(chars: &[char]) -> (s: String)
    ensures
        s@ == chars@,
{
    let mut s = String::new();
    for i in 0..chars.len()
        invariant
            s@ == chars@.take(i as int),
    {
        s.push(chars[i]);
    }
    assert(chars@.take(chars@.len() as int) == chars@);
    s
}

/// The position of the first `c` in `chars`.
pub fn find_char(chars: &[char], c: char) -> (r: Option<usize>)
    ensures
        match r {
            Some(i) => chars@.index_of_first(c) == Some(i as int),
            None => chars@.index_of_first(c) is None,
        },
{
    proof {
        chars@.index_of_first_ensures(c);
    }
    for i in 0..chars.len()
        invariant
            forall|j: int| 0 <= j < i ==> chars@[j] != c,
            match chars@.index_of_first(c) {
                Some(k) => 0 <= k < chars@.len() && chars@[k] == c && (forall|j: int|
                    0 <= j < k ==> chars@[j] != c),
                None => !chars@.contains(c),
            },
    {
        if chars[i] == c {
            return Some(i);
        }
    }
    None
}

/// `pat` stands in `s` at position `i`.
pub open spec fn occurs_at(s: Seq<char>, pat: Seq<char>, i: int) -> bool {
    0 <= i <= s.len() - pat.len() && s.subrange(i, i + pat.len()) == pat
}

/// `pat` stands somewhere in `s`.
pub open spec fn contains_text(s: Seq<char>, pat: Seq<char>) -> bool {
    exists|i: int| occurs_at(s, pat, i)
}

/// `i` is the first position at which `pat` stands in `s`.
pub open spec fn is_first_occurrence(s: Seq<char>, pat: Seq<char>, i: int) -> bool {
    occurs_at(s, pat, i) && forall|j: int| 0 <= j < i ==> !occurs_at(s, pat, j)
}

/// The first position at which `pat` stands in `s`.
pub open spec fn first_occurrence(s: Seq<char>, pat: Seq<char>) -> Option<int> {
    if contains_text(s, pat) {
        Some(choose|i: int| is_first_occurrence(s, pat, i))
    } else {
        None
    }
}

/// A first occurrence is the first occurrence.
pub proof fn lemma_first_occurrence(s: Seq<char>, pat: Seq<char>, i: int)
    requires
        is_first_occurrence(s, pat, i),
    ensures
        first_occurrence(s, pat) == Some(i),
{
    let k = choose|k: int| is_first_occurrence(s, pat, k);
    assert(is_first_occurrence(s, pat, k));
    assert(!(k < i));
    assert(!(i < k));
}

/// A text that stands somewhere stands somewhere first.
pub proof fn lemma_first_of(s: Seq<char>, pat: Seq<char>, i: int)
    requires
        occurs_at(s, pat, i),
    ensures
        first_occurrence(s, pat) is Some,
        is_first_occurrence(s, pat, first_occurrence(s, pat)->0),
    decreases i,
{
    if exists|j: int| 0 <= j < i && occurs_at(s, pat, j) {
        let j = choose|j: int| 0 <= j < i && occurs_at(s, pat, j);
        lemma_first_of(s, pat, j);
    } else {
        assert(is_first_occurrence(s, pat, i));
        lemma_first_occurrence(s, pat, i);
    }
}

/// Whether `pat` stands in `chars` at position `i`.
fn occurs(chars: &[char], pat: &[char], i: usize) -> (r: bool)
    requires
        i <= chars@.len() - pat@.len(),
    ensures
        r == occurs_at(chars@, pat@, i as int),
{
    for k in 0..pat.len()
        invariant
            i <= chars@.len() - pat@.len(),
            forall|j: int| 0 <= j < k ==> chars@[i + j] == pat@[j],
    {
        assert(i + k < chars.len());
        if chars[i + k] != pat[k] {
            assert(chars@.subrange(i as int, i + pat@.len())[k as int] != pat@[k as int]);
            return false;
        }
    }
    assert(chars@.subrange(i as int, i + pat@.len()) =~= pat@);
    true
}

/// The first position at which `pat` stands in `chars`.
pub fn find_text(chars: &[char], pat: &[char]) -> (r: Option<usize>)
    ensures
        match r {
            Some(i) => first_occurrence(chars@, pat@) == Some(i as int) && is_first_occurrence(
                chars@,
                pat@,
                i as int,
            ),
            None => first_occurrence(chars@, pat@) is None,
        },
        r is Some <==> contains_text(chars@, pat@),
{
    if pat.len() > chars.len() {
        return None;
    }
    let last: usize = chars.len() - pat.len();
    let mut i: usize = 0;
    while i <= last
        invariant
            last == chars@.len() - pat@.len(),
            i <= last + 1,
            forall|j: int| 0 <= j < i ==> !occurs_at(chars@, pat@, j),
        decreases last + 1 - i,
    {
        if occurs(chars, pat, i) {
            proof {
                lemma_first_occurrence(chars@, pat@, i as int);
            }
            return Some(i);
        }
        if i == last {
            return None;
        }
        i = i + 1;
    }
    None
}

/// Whether `pat` begins `chars`.
pub fn starts_with(chars: &[char], pat: &[char]) -> (r: bool)
    ensures
        r == pat@.is_prefix_of(chars@),
{
    if pat.len() > chars.len() {
        return false;
    }
    occurs(chars, pat, 0)
}

/// The characters with the Unicode property White_Space.
pub open spec fn is_white(c: char) -> bool {
    let u = c as u32;
    ||| 0x09 <= u <= 0x0D
    ||| u == 0x20
    ||| u == 0x85
    ||| u == 0xA0
    ||| u == 0x1680
    ||| 0x2000 <= u <= 0x200A
    ||| u == 0x2028
    ||| u == 0x2029
    ||| u == 0x202F
    ||| u == 0x205F
    ||| u == 0x3000
}

/// Whether `c` has the Unicode property White_Space.
pub fn is_white_space(c: char) -> (r: bool)
    ensures
        r == is_white(c),
{
    let u: u32 = c as u32;
    (0x09 <= u && u <= 0x0D) || u == 0x20 || u == 0x85 || u == 0xA0 || u == 0x1680 || (0x2000 <= u
        && u <= 0x200A) || u == 0x2028 || u == 0x2029 || u == 0x202F || u == 0x205F || u == 0x3000
}

/// `s` without the white space that begins it.
pub open spec fn trim_start(s: Seq<char>) -> Seq<char>
    decreases s.len(),
{
    if s.len() > 0 && is_white(s[0]) {
        trim_start(s.drop_first())
    } else {
        s
    }
}

/// `s` without the white space that ends it.
pub open spec fn trim_end(s: Seq<char>) -> Seq<char>
    decreases s.len(),
{
    if s.len() > 0 && is_white(s.last()) {
        trim_end(s.drop_last())
    } else {
        s
    }
}

/// `chars` without the white space at both ends.
pub fn trim(chars: &[char]) -> (r: &[char])
    ensures
        r@ == trim_end(trim_start(chars@)),
{
    let mut from: usize = 0;
    assert(chars@.skip(0) == chars@);
    while from < chars.len() && is_white_space(chars[from])
        invariant
            from <= chars@.len(),
            trim_start(chars@) == trim_start(chars@.skip(from as int)),
        decreases chars@.len() - from,
    {
        assert(chars@.skip(from as int).drop_first() == chars@.skip(from + 1));
        from = from + 1;
    }
    let ghost rest = chars@.skip(from as int);
    assert(trim_start(chars@) == rest);
    let mut to: usize = chars.len();
    assert(chars@.subrange(from as int, to as int) == rest);
    while from < to && is_white_space(chars[to - 1])
        invariant
            from <= to <= chars@.len(),
            trim_end(rest) == trim_end(chars@.subrange(from as int, to as int)),
        decreases to,
    {
        assert(chars@.subrange(from as int, to as int).drop_last() == chars@.subrange(
            from as int,
            to - 1,
        ));
        to = to - 1;
    }
    slice_subrange(chars, from, to)
}

/// The decimal digit `d`.
pub open spec fn digit(d: int) -> char {
    ('0' as u32 + d) as char
}

/// `n` in decimal.
pub open spec fn decimal(n: nat) -> Seq<char>
    decreases n,
{
    if n < 10 {
        seq![digit(n as int)]
    } else {
        decimal(n / 10).push(digit((n % 10) as int))
    }
}

/// `n` in decimal, filled up with zeros on the left to `width` digits.
pub open spec fn zero_padded(n: nat, width: nat) -> Seq<char> {
    let d = decimal(n);
    if d.len() < width {
        Seq::new((width - d.len()) as nat, |i: int| '0') + d
    } else {
        d
    }
}

/// Appends `n` in decimal to `s`.
pub fn push_decimal(s: &mut String, n: u32)
    ensures
        final(s)@ == old(s)@ + decimal(n as nat),
    decreases n,
{
    if n >= 10 {
        push_decimal(s, n / 10);
    }
    let d: u8 = (n % 10) as u8;
    s.push((48u8 + d) as char);
}

/// A text stands in another if and only if the other is made of something, the text, and
/// something.
pub proof fn law_contains_text(s: Seq<char>, pat: Seq<char>)
    ensures
        contains_text(s, pat) <==> exists|a: Seq<char>, b: Seq<char>| s == #[trigger] (a + pat + b),
{
    if contains_text(s, pat) {
        let i = choose|i: int| occurs_at(s, pat, i);
        assert(s == s.take(i) + pat + s.skip(i + pat.len()));
    }
    if exists|a: Seq<char>, b: Seq<char>| s == #[trigger] (a + pat + b) {
        let (a, b) = choose|a: Seq<char>, b: Seq<char>| s == #[trigger] (a + pat + b);
        assert(s.subrange(a.len() as int, a.len() as int + pat.len()) == pat);
        assert(occurs_at(s, pat, a.len() as int));
    }
}

/// Where a text stands in another, its first place is one of those, and none is before
/// it.
pub proof fn law_first_occurrence(s: Seq<char>, pat: Seq<char>)
    ensures
        match first_occurrence(s, pat) {
            Some(i) => 0 <= i && i + pat.len() <= s.len() && s.subrange(i, i + pat.len()) == pat
                && forall|j: int|
                0 <= j < i ==> #[trigger] s.subrange(j, j + pat.len()) != pat,
            None => forall|j: int|
                0 <= j <= s.len() - pat.len() ==> #[trigger] s.subrange(j, j + pat.len()) != pat,
        },
{
    if contains_text(s, pat) {
        let at = choose|i: int| occurs_at(s, pat, i);
        lemma_first_of(s, pat, at);
        let i = first_occurrence(s, pat)->0;
        assert forall|j: int| 0 <= j < i implies #[trigger] s.subrange(j, j + pat.len()) != pat by {
            assert(!occurs_at(s, pat, j));
        }
    } else {
        assert forall|j: int| 0 <= j <= s.len() - pat.len() implies #[trigger] s.subrange(
            j,
            j + pat.len(),
        ) != pat by {
            assert(!occurs_at(s, pat, j));
        }
    }
}

/// Every character of the text is white space.
pub open spec fn is_blank(s: Seq<char>) -> bool {
    forall|i: int| 0 <= i < s.len() ==> is_white(#[trigger] s[i])
}

/// Trimming takes off white space and nothing else, and leaves none at the ends.
pub proof fn law_trim(s: Seq<char>)
    ensures
        exists|a: Seq<char>| is_blank(a) && s == #[trigger] (a + trim_start(s)),
        trim_start(s).len() > 0 ==> !is_white(trim_start(s)[0]),
        exists|b: Seq<char>| is_blank(b) && s == #[trigger] (trim_end(s) + b),
        trim_end(s).len() > 0 ==> !is_white(trim_end(s).last()),
    decreases s.len(),
{
    if s.len() > 0 && is_white(s[0]) {
        law_trim(s.drop_first());
        let a = choose|a: Seq<char>|
            is_blank(a) && s.drop_first() == #[trigger] (a + trim_start(s.drop_first()));
        let longer = seq![s[0]] + a;
        assert(s == seq![s[0]] + s.drop_first());
        assert(s == longer + trim_start(s));
        assert(is_blank(longer));
    } else {
        assert(s == Seq::<char>::empty() + trim_start(s));
    }
    if s.len() > 0 && is_white(s.last()) {
        law_trim(s.drop_last());
        let b = choose|b: Seq<char>|
            is_blank(b) && s.drop_last() == #[trigger] (trim_end(s.drop_last()) + b);
        let longer = b.push(s.last());
        assert(s == s.drop_last().push(s.last()));
        assert(s == trim_end(s) + longer);
        assert(is_blank(longer));
    } else {
        assert(s == trim_end(s) + Seq::<char>::empty());
    }
}

/// The number that a text of digits stands for.
pub open spec fn number_of(digits: Seq<char>) -> int
    decreases digits.len(),
{
    if digits.len() == 0 {
        0
    } else {
        number_of(digits.drop_last()) * 10 + (digits.last() as u32 - '0' as u32)
    }
}

/// A decimal is made of digits, stands for its number, and has no zero before it.
pub proof fn law_decimal(n: nat)
    ensures
        number_of(decimal(n)) == n,
        decimal(n).len() > 0,
        forall|i: int| 0 <= i < decimal(n).len() ==> '0' <= #[trigger] decimal(n)[i] <= '9',
        decimal(n)[0] == '0' ==> n == 0 && decimal(n).len() == 1,
    decreases n,
{
    reveal_with_fuel(number_of, 2);
    let d = decimal(n);
    if n >= 10 {
        law_decimal(n / 10);
        let front = decimal(n / 10);
        assert(d == front.push(digit((n % 10) as int)));
        assert(d.drop_last() == front);
        assert(d[0] == front[0]);
        assert forall|i: int| 0 <= i < d.len() implies '0' <= #[trigger] d[i] <= '9' by {
            if i < d.len() - 1 {
                assert(d[i] == front[i]);
            }
        }
    } else {
        assert(d.drop_last() == Seq::<char>::empty());
    }
}

/// A padded number is the decimal with zeros before it, as many as it takes to the width.
pub proof fn law_zero_padded(n: nat, width: nat)
    ensures
        zero_padded(n, width).len() == if decimal(n).len() < width {
            width
        } else {
            decimal(n).len()
        },
        zero_padded(n, width).skip(zero_padded(n, width).len() - decimal(n).len()) == decimal(n),
        forall|i: int|
            0 <= i < zero_padded(n, width).len() - decimal(n).len() ==> #[trigger] zero_padded(
                n,
                width,
            )[i] == '0',
{
}

} // verus!
