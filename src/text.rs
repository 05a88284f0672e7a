use vstd::prelude::*;
use vstd::std_specs::iter::IteratorSpec;

verus! {

/// Relies on `<str as PartialEq>::eq`: equal exactly when the characters are.
#[verifier::external_body]
pub(crate) fn str_eq(a: &str, b: &str) -> (r: bool)
    ensures
        r == (a@ == b@),
{
    a == b
}

/// The character of a decimal digit.
pub open spec fn digit_char(d: nat) -> char {
    if d == 0 { '0' } else if d == 1 { '1' } else if d == 2 { '2' } else if d == 3 { '3' }
    else if d == 4 { '4' } else if d == 5 { '5' } else if d == 6 { '6' } else if d == 7 { '7' }
    else if d == 8 { '8' } else { '9' }
}

/// The decimal digits of a number, most significant first, without leading zeros.
pub open spec fn decimal_spec(n: nat) -> Seq<char>
    decreases n,
{
    if n < 10 {
        seq![digit_char(n)]
    } else {
        decimal_spec(n / 10).push(digit_char(n % 10))
    }
}

/// Relies on `u64::to_string`: the decimal digits of the number.
#[verifier::external_body]
pub(crate) fn decimal(n: u64) -> (r: String)
    ensures
        r@ == decimal_spec(n as nat),
{
    n.to_string()
}

/// Relies on `String::push_str`: appends the text.
#[verifier::external_body]
pub(crate) fn append(s: &mut String, t: &str)
    ensures
        final(s)@ == old(s)@ + t@,
{
    s.push_str(t)
}

/// Relies on `String::from` for `&str`: a copy of the text.
#[verifier::external_body]
pub(crate) fn owned(t: &str) -> (r: String)
    ensures
        r@ == t@,
{
    String::from(t)
}

/// The characters of the text, in order.
pub(crate) fn chars_of(s: &str) -> (r: Vec<char>)
    ensures
        r@ == s@,
{
    broadcast use vstd::string::axiom_spec_iter, vstd::string::next_postcondition;
    let mut it = s.chars();
    let mut v: Vec<char> = Vec::new();
    assert(it.remaining() == s@);
    loop
        invariant
            v@ + it.remaining() == s@,
            it.obeys_prophetic_iter_laws(),
            it.decrease() is Some,
        ensures
            v@ == s@,
        decreases it.decrease()->0,
    {
        let ghost before = it.remaining();
        match it.next() {
            Some(c) => {
                v.push(c);
                assert(v@ + it.remaining() =~= s@) by {
                    assert(before =~= seq![c] + before.drop_first());
                }
            },
            None => {
                assert(v@ =~= s@);
                break;
            },
        }
    }
    v
}

/// Relies on `String::from_iter` over characters: the text of those characters.
#[verifier::external_body]
pub(crate) fn string_of(cs: &[char]) -> (r: String)
    ensures
        r@ == cs@,
{
    cs.iter().collect()
}

/// Unicode white space, as `char::is_whitespace` defines it.
pub open spec fn is_white_space(c: char) -> bool {
    let x = c as u32;
    (0x09 <= x && x <= 0x0d) || x == 0x20 || x == 0x85 || x == 0xa0 || x == 0x1680 || (0x2000 <= x
        && x <= 0x200a) || x == 0x2028 || x == 0x2029 || x == 0x202f || x == 0x205f || x == 0x3000
}

pub fn is_whitespace(c: char) -> (r: bool)
    ensures
        r == is_white_space(c),
{
    let x = c as u32;
    (0x09 <= x && x <= 0x0d) || x == 0x20 || x == 0x85 || x == 0xa0 || x == 0x1680 || (0x2000 <= x
        && x <= 0x200a) || x == 0x2028 || x == 0x2029 || x == 0x202f || x == 0x205f || x == 0x3000
}

pub open spec fn is_ascii_upper(c: char) -> bool {
    'A' <= c && c <= 'Z'
}

/// Two characters are equal up to ASCII case.
pub open spec fn char_eq_ignore_case(a: char, b: char) -> bool {
    a == b || (is_ascii_upper(a) && a as u32 + 32 == b as u32) || (is_ascii_upper(b) && b as u32
        + 32 == a as u32)
}

/// Two texts are equal up to ASCII case.
#[verifier::opaque]
pub open spec fn eq_ignore_case(a: Seq<char>, b: Seq<char>) -> bool {
    a.len() == b.len() && forall|i: int| 0 <= i < a.len() ==> char_eq_ignore_case(#[trigger] a[i], b[i])
}

pub fn char_eq_ignore_ascii_case(a: char, b: char) -> (r: bool)
    ensures
        r == char_eq_ignore_case(a, b),
{
    let (x, y) = (a as u32, b as u32);
    x == y || ('A' <= a && a <= 'Z' && x + 32 == y) || ('A' <= b && b <= 'Z' && y + 32 == x)
}

/// Whether two texts are equal up to ASCII case.
pub fn eq_ignore_ascii_case(a: &str, b: &str) -> (r: bool)
    ensures
        r == eq_ignore_case(a@, b@),
{
    reveal(eq_ignore_case);
    let (x, y) = (chars_of(a), chars_of(b));
    if x.len() != y.len() {
        return false;
    }
    proof { reveal(eq_ignore_case); }
    let mut i: usize = 0;
    while i < x.len()
        invariant
            x@ == a@,
            y@ == b@,
            x.len() == y.len(),
            i <= x.len(),
            forall|j: int| 0 <= j < i ==> char_eq_ignore_case(#[trigger] x@[j], y@[j]),
        decreases x.len() - i,
    {
        if !char_eq_ignore_ascii_case(x[i], y[i]) {
            proof { reveal(eq_ignore_case); }
            return false;
        }
        i = i + 1;
    }
    true
}

/// Position of the first character that is not white space, from `i` on.
pub open spec fn skip_ws_from(s: Seq<char>, i: int) -> int
    decreases s.len() - i,
{
    if i >= s.len() || !is_white_space(s[i]) {
        i
    } else {
        skip_ws_from(s, i + 1)
    }
}

/// Position just after the last character before `j` that is not white space, down to `lo`.
pub open spec fn skip_ws_back(s: Seq<char>, lo: int, j: int) -> int
    decreases j - lo,
{
    if j <= lo || !is_white_space(s[j - 1]) {
        j
    } else {
        skip_ws_back(s, lo, j - 1)
    }
}

/// The text without leading and trailing white space.
pub open spec fn trim_spec(s: Seq<char>) -> Seq<char> {
    let lo = skip_ws_from(s, 0);
    s.subrange(lo, skip_ws_back(s, lo, s.len() as int))
}

/// The text without leading and trailing white space.
pub fn trim(s: &str) -> (r: String)
    ensures
        r@ == trim_spec(s@),
{
    let cs = chars_of(s);
    let mut lo: usize = 0;
    while lo < cs.len() && is_whitespace(cs[lo])
        invariant
            cs@ == s@,
            lo <= cs.len(),
            skip_ws_from(s@, 0) == skip_ws_from(s@, lo as int),
        decreases cs.len() - lo,
    {
        lo = lo + 1;
    }
    let mut hi: usize = cs.len();
    while hi > lo && is_whitespace(cs[hi - 1])
        invariant
            cs@ == s@,
            lo <= hi <= cs.len(),
            lo == skip_ws_from(s@, 0),
            skip_ws_back(s@, lo as int, s@.len() as int) == skip_ws_back(s@, lo as int, hi as int),
        decreases hi - lo,
    {
        hi = hi - 1;
    }
    let piece = string_of(&cs.as_slice()[lo..hi]);
    assert(cs@.subrange(lo as int, hi as int) == trim_spec(s@));
    piece
}

/// The pieces of the text between occurrences of the separator, as `str::split` gives them.
pub open spec fn split_spec(s: Seq<char>, sep: char) -> Seq<Seq<char>>
    decreases s.len(),
{
    if s.len() == 0 {
        seq![Seq::empty()]
    } else {
        let rest = split_spec(s.drop_last(), sep);
        if s.last() == sep {
            rest.push(Seq::empty())
        } else {
            rest.update(rest.len() - 1, rest.last().push(s.last()))
        }
    }
}

proof fn lemma_split_nonempty(s: Seq<char>, sep: char)
    ensures
        split_spec(s, sep).len() >= 1,
        split_spec(s, sep).len() <= s.len() + 1,
    decreases s.len(),
{
    if s.len() > 0 {
        lemma_split_nonempty(s.drop_last(), sep);
    }
}

/// The views of a list of texts.
pub open spec fn views(v: Seq<String>) -> Seq<Seq<char>> {
    v.map_values(|x: String| x@)
}

/// Splits the characters at each occurrence of the separator.
pub fn split_chars(cs: &Vec<char>, sep: char) -> (r: Vec<String>)
    ensures
        views(r@) == split_spec(cs@, sep),
{
    let mut pieces: Vec<String> = Vec::new();
    let mut start: usize = 0;
    let mut i: usize = 0;
    assert(cs@.take(0) =~= Seq::<char>::empty());
    assert(views(pieces@).push(cs@.subrange(0, 0)) =~= seq![Seq::<char>::empty()]);
    while i < cs.len()
        invariant
            start <= i <= cs.len(),
            split_spec(cs@.take(i as int), sep) == views(pieces@).push(cs@.subrange(start as int, i as int)),
        decreases cs.len() - i,
    {
        let ghost prev = cs@.take(i as int);
        assert(cs@.take(i + 1).drop_last() =~= prev);
        proof { lemma_split_nonempty(prev, sep); }
        if cs[i] == sep {
            let piece = string_of(&cs.as_slice()[start..i]);
            pieces.push(piece);
            start = i + 1;
            assert(views(pieces@) =~= split_spec(prev, sep));
            assert(cs@.subrange(start as int, i + 1) =~= Seq::<char>::empty());
            assert(split_spec(cs@.take(i + 1), sep) =~= views(pieces@).push(cs@.subrange(start as int, i + 1)));
        } else {
            assert(cs@.subrange(start as int, i + 1) =~= cs@.subrange(start as int, i as int).push(cs@[i as int]));
            assert(split_spec(cs@.take(i + 1), sep) =~= views(pieces@).push(cs@.subrange(start as int, i + 1)));
        }
        i = i + 1;
    }
    let last = string_of(&cs.as_slice()[start..cs.len()]);
    pieces.push(last);
    assert(cs@.take(cs.len() as int) =~= cs@);
    assert(views(pieces@) =~= split_spec(cs@, sep));
    pieces
}

/// Splits the text at each occurrence of the separator.
pub fn split_on(s: &str, sep: char) -> (r: Vec<String>)
    ensures
        views(r@) == split_spec(s@, sep),
{
    split_chars(&chars_of(s), sep)
}

/// A line without the carriage return that ended it, if any.
pub open spec fn strip_cr(line: Seq<char>) -> Seq<char> {
    if line.len() > 0 && line.last() == '\r' {
        line.drop_last()
    } else {
        line
    }
}

/// The lines of a text, as `str::lines` gives them: split at line feeds, without a final
/// empty line, and with the carriage return before a line feed removed.
pub open spec fn lines_spec(s: Seq<char>) -> Seq<Seq<char>> {
    let pieces = split_spec(s, '\n');
    if s.len() == 0 || s.last() == '\n' {
        pieces.drop_last().map_values(|l: Seq<char>| strip_cr(l))
    } else {
        pieces.drop_last().map_values(|l: Seq<char>| strip_cr(l)).push(pieces.last())
    }
}

pub fn lines(s: &str) -> (r: Vec<String>)
    ensures
        views(r@) == lines_spec(s@),
{
    let cs = chars_of(s);
    let pieces = split_chars(&cs, '\n');
    proof { lemma_split_nonempty(s@, '\n'); }
    let ends_with_newline = cs.len() == 0 || cs[cs.len() - 1] == '\n';
    let mut out: Vec<String> = Vec::new();
    let mut i: usize = 0;
    while i + 1 < pieces.len()
        invariant
            views(pieces@) == split_spec(s@, '\n'),
            pieces.len() >= 1,
            i + 1 <= pieces.len(),
            views(out@) == views(pieces@).take(i as int).map_values(|l: Seq<char>| strip_cr(l)),
        decreases pieces.len() - i,
    {
        let line = &pieces[i];
        let lcs = chars_of(line.as_str());
        let stripped = if lcs.len() > 0 && lcs[lcs.len() - 1] == '\r' {
            string_of(&lcs.as_slice()[0..lcs.len() - 1])
        } else {
            string_of(lcs.as_slice())
        };
        assert(stripped@ == strip_cr(views(pieces@)[i as int])) by {
            assert(views(pieces@)[i as int] == pieces@[i as int]@);
            if lcs.len() > 0 && lcs@.last() == '\r' {
                assert(lcs@.subrange(0, lcs.len() - 1) =~= lcs@.drop_last());
            } else {
                assert(lcs@.subrange(0, lcs.len() as int) =~= lcs@);
            }
        }
        let ghost before = views(out@);
        out.push(stripped);
        assert(views(out@) =~= before.push(stripped@));
        assert(views(pieces@).take(i + 1) =~= views(pieces@).take(i as int).push(views(pieces@)[i as int]));
        assert(views(out@) =~= views(pieces@).take(i + 1).map_values(|l: Seq<char>| strip_cr(l)));
        i = i + 1;
    }
    assert(views(pieces@).take(i as int) =~= views(pieces@).drop_last());
    if !ends_with_newline {
        let last = owned(pieces[i].as_str());
        out.push(last);
        assert(views(out@) =~= lines_spec(s@));
    } else {
        assert(views(out@) =~= lines_spec(s@));
    }
    out
}

/// Whether the pattern occurs at position `i`.
pub open spec fn occurs_at(s: Seq<char>, pat: Seq<char>, i: int) -> bool {
    0 <= i && i + pat.len() <= s.len() && s.subrange(i, i + pat.len()) == pat
}

/// The first position at which the pattern occurs, if any.
#[verifier::opaque]
pub open spec fn first_occurrence(s: Seq<char>, pat: Seq<char>) -> Option<int> {
    if exists|i: int| occurs_at(s, pat, i) {
        Some(choose|i: int| occurs_at(s, pat, i) && forall|j: int| 0 <= j < i ==> !occurs_at(s, pat, j))
    } else {
        None
    }
}

/// Finds the first occurrence of the pattern.
pub fn find(cs: &Vec<char>, pat: &Vec<char>) -> (r: Option<usize>)
    ensures
        r matches Some(i) ==> occurs_at(cs@, pat@, i as int) && forall|j: int| 0 <= j < i ==> !occurs_at(cs@, pat@, j),
        r is None ==> forall|j: int| !occurs_at(cs@, pat@, j),
        r matches Some(i) ==> first_occurrence(cs@, pat@) == Some(i as int),
        r is None ==> first_occurrence(cs@, pat@) is None,
{
    reveal(first_occurrence);
    if pat.len() > cs.len() {
        return None;
    }
    let mut i: usize = 0;
    while i <= cs.len() - pat.len()
        invariant
            pat.len() <= cs.len(),
            i <= cs.len() - pat.len() + 1,
            forall|j: int| 0 <= j < i ==> !occurs_at(cs@, pat@, j),
        decreases cs.len() - i,
    {
        let mut k: usize = 0;
        let mut same = true;
        while k < pat.len()
            invariant
                i + pat.len() <= cs.len(),
                k <= pat.len(),
                same == forall|t: int| 0 <= t < k ==> cs@[i + t] == pat@[t],
            decreases pat.len() - k,
        {
            if cs[i + k] != pat[k] {
                same = false;
            }
            k = k + 1;
        }
        if same {
            assert(cs@.subrange(i as int, i + pat.len()) =~= pat@);
            proof {
                reveal(first_occurrence);
                let w = i as int;
                assert(occurs_at(cs@, pat@, w) && forall|j: int| 0 <= j < w ==> !occurs_at(cs@, pat@, j));
                let c = choose|c: int| occurs_at(cs@, pat@, c) && forall|j: int| 0 <= j < c ==> !occurs_at(cs@, pat@, j);
                if c < w {
                } else if c > w {
                }
            }
            return Some(i);
        }
        proof {
            let ghost sub = cs@.subrange(i as int, i + pat.len());
            let t = choose|t: int| 0 <= t < pat.len() && cs@[i + t] != pat@[t];
            assert(sub[t] != pat@[t]);
        }
        i = i + 1;
    }
    None
}

/// The text before and after the first occurrence of the pattern, as `str::split_once` gives them.
pub open spec fn split_once_spec(s: Seq<char>, pat: Seq<char>) -> Option<(Seq<char>, Seq<char>)> {
    match first_occurrence(s, pat) {
        Some(i) => Some((s.take(i), s.skip(i + pat.len()))),
        None => None,
    }
}

pub fn split_once(s: &str, pat: &str) -> (r: Option<(String, String)>)
    ensures
        match r {
            Some((a, b)) => split_once_spec(s@, pat@) == Some((a@, b@)),
            None => split_once_spec(s@, pat@) is None,
        },
{
    let cs = chars_of(s);
    let ps = chars_of(pat);
    match find(&cs, &ps) {
        Some(i) => {
            assert(occurs_at(cs@, ps@, i as int));
            assert(i + ps.len() <= cs.len());
            let before = string_of(&cs.as_slice()[0..i]);
            let after = string_of(&cs.as_slice()[i + ps.len()..cs.len()]);
            assert(cs@.subrange(0, i as int) =~= cs@.take(i as int));
            assert(cs@.subrange(i + ps.len(), cs.len() as int) =~= cs@.skip(i + ps.len()));
            Some((before, after))
        },
        None => None,
    }
}

/// Whether the pattern occurs in the text.
pub fn contains(s: &str, pat: &str) -> (r: bool)
    ensures
        r == (first_occurrence(s@, pat@) is Some),
{
    let cs = chars_of(s);
    let ps = chars_of(pat);
    find(&cs, &ps).is_some()
}

/// The text without the suffix, if it ends with it.
pub open spec fn strip_suffix_spec(s: Seq<char>, suffix: Seq<char>) -> Option<Seq<char>> {
    if suffix.len() <= s.len() && s.skip(s.len() - suffix.len()) == suffix {
        Some(s.take(s.len() - suffix.len()))
    } else {
        None
    }
}

pub fn strip_suffix(s: &str, suffix: &str) -> (r: Option<String>)
    ensures
        match r {
            Some(t) => strip_suffix_spec(s@, suffix@) == Some(t@),
            None => strip_suffix_spec(s@, suffix@) is None,
        },
{
    let cs = chars_of(s);
    let ps = chars_of(suffix);
    if ps.len() > cs.len() {
        return None;
    }
    let off = cs.len() - ps.len();
    let mut k: usize = 0;
    while k < ps.len()
        invariant
            cs@ == s@,
            ps@ == suffix@,
            off + ps.len() == cs.len(),
            k <= ps.len(),
            forall|t: int| 0 <= t < k ==> cs@[off + t] == ps@[t],
        decreases ps.len() - k,
    {
        if cs[off + k] != ps[k] {
            assert(cs@.skip(off as int)[k as int] != ps@[k as int]);
            return None;
        }
        k = k + 1;
    }
    assert(cs@.skip(off as int) =~= ps@);
    let t = string_of(&cs.as_slice()[0..off]);
    assert(cs@.subrange(0, off as int) =~= cs@.take(off as int));
    Some(t)
}

/// The value of a decimal digit character.
pub open spec fn digit_value(c: char) -> int {
    c as u32 - '0' as u32
}

pub open spec fn is_digit(c: char) -> bool {
    '0' <= c && c <= '9'
}

/// The number that a string of decimal digits denotes.
pub open spec fn digits_value(s: Seq<char>) -> nat
    decreases s.len(),
{
    if s.len() == 0 {
        0
    } else {
        (digits_value(s.drop_last()) * 10 + digit_value(s.last())) as nat
    }
}

/// The text after an optional leading plus sign.
pub open spec fn unsigned_part(s: Seq<char>) -> Seq<char> {
    if s.len() > 0 && s[0] == '+' { s.skip(1) } else { s }
}

/// What `str::parse::<u8>` gives: an optional plus sign, then one or more decimal digits
/// whose value is at most 255.
#[verifier::opaque]
pub open spec fn parse_u8_spec(s: Seq<char>) -> Option<u8> {
    let digits = unsigned_part(s);
    if digits.len() > 0 && (forall|i: int| 0 <= i < digits.len() ==> is_digit(#[trigger] digits[i]))
        && digits_value(digits) <= 255 {
        Some(digits_value(digits) as u8)
    } else {
        None
    }
}

proof fn lemma_digits_value_grows(s: Seq<char>, n: int)
    requires
        0 <= n < s.len(),
        forall|i: int| 0 <= i < s.len() ==> is_digit(#[trigger] s[i]),
    ensures
        digits_value(s.take(n)) <= digits_value(s.take(n + 1)),
{
    assert(s.take(n + 1).drop_last() =~= s.take(n));
}

proof fn lemma_digits_value_prefix(s: Seq<char>, n: int)
    requires
        0 <= n <= s.len(),
        forall|i: int| 0 <= i < s.len() ==> is_digit(#[trigger] s[i]),
    ensures
        digits_value(s.take(n)) <= digits_value(s),
    decreases s.len() - n,
{
    if n < s.len() {
        lemma_digits_value_grows(s, n);
        lemma_digits_value_prefix(s, n + 1);
    } else {
        assert(s.take(n) =~= s);
    }
}

#[verifier::rlimit(40)]
pub fn parse_u8(s: &str) -> (r: Option<u8>)
    ensures
        r == parse_u8_spec(s@),
{
    reveal(parse_u8_spec);
    let cs = chars_of(s);
    let start: usize = if cs.len() > 0 && cs[0] == '+' { 1 } else { 0 };
    let ghost digits = unsigned_part(s@);
    if start >= cs.len() {
        assert(digits.len() == 0);
        return None;
    }
    let mut value: u32 = 0;
    let mut i: usize = start;
    while i < cs.len()
        invariant
            cs@ == s@,
            start <= i <= cs.len(),
            digits == cs@.skip(start as int),
            digits == unsigned_part(s@),
            forall|t: int| 0 <= t < i - start ==> is_digit(#[trigger] digits[t]),
            value == digits_value(digits.take(i - start)),
            value <= 255,
        decreases cs.len() - i,
    {
        let c = cs[i];
        assert(digits[i - start] == c);
        if !('0' <= c && c <= '9') {
            reveal(parse_u8_spec);
            assert(!is_digit(unsigned_part(s@)[i - start]));
            return None;
        }
        let next = value * 10 + (c as u32 - '0' as u32);
        assert(digits.take(i + 1 - start).drop_last() =~= digits.take(i - start));
        assert(digits.take(i + 1 - start).last() == c);
        assert(digits_value(digits.take(i + 1 - start)) == next);
        if next > 255 {
            proof {
                reveal(parse_u8_spec);
                if forall|t: int| 0 <= t < digits.len() ==> is_digit(#[trigger] digits[t]) {
                    lemma_digits_value_prefix(digits, i + 1 - start);
                    assert(digits_value(unsigned_part(s@)) > 255);
                }
            }
            return None;
        }
        value = next;
        i = i + 1;
    }
    assert(digits.take(i - start) =~= digits);
    proof { reveal(parse_u8_spec); }
    Some(value as u8)
}

} // verus!
