//! Text handling used by the voice-command matcher and the device rules:
//! character classes, trimming, splitting, substring search and decimal
//! rendering, each stated over the characters of the strings.

use vstd::prelude::*;
use vstd::string::*;

verus! {

broadcast use vstd::string::group_string_axioms;

/// The characters of a string, in order.
pub fn chars_of(s: &str) -> (chars: Vec<char>)
    ensures
        chars@ == s@,
{
    let mut chars: Vec<char> = Vec::new();
    for c in it: s.chars()
        invariant
            chars@ == it.seq().take(it.index()),
            it.seq() == s@,
    {
        chars.push(c);
    }
    chars
}


/// The characters with the Unicode `White_Space` property, the ones that
/// `char::is_whitespace` accepts.
pub open spec fn is_white_space(c: char) -> bool {
    let u = c as u32;
    ||| 0x9 <= u <= 0xd
    ||| u == 0x20
    ||| u == 0x85
    ||| u == 0xa0
    ||| u == 0x1680
    ||| 0x2000 <= u <= 0x200a
    ||| u == 0x2028
    ||| u == 0x2029
    ||| u == 0x202f
    ||| u == 0x205f
    ||| u == 0x3000
}

/// A set of characters that can be trimmed off the ends of a word.
#[derive(PartialEq, Eq, Structural, Clone, Copy, Debug)]
pub enum CharClass {
    /// Unicode white space.
    WhiteSpace,
    /// The sentence-ending marks `?`, `!` and `.`.
    SentenceEnd,
}

/// Whether a character belongs to a class.
pub open spec fn in_class(class: CharClass, c: char) -> bool {
    match class {
        CharClass::WhiteSpace => is_white_space(c),
        CharClass::SentenceEnd => c == '?' || c == '!' || c == '.',
    }
}

/// Decides whether a character belongs to a class.
pub fn char_in_class(class: CharClass, c: char) -> (b: bool)
    ensures
        b == in_class(class, c),
{
    match class {
        CharClass::WhiteSpace => {
            let u = c as u32;
            (0x9 <= u && u <= 0xd) || u == 0x20 || u == 0x85 || u == 0xa0 || u == 0x1680 || (0x2000
                <= u && u <= 0x200a) || u == 0x2028 || u == 0x2029 || u == 0x202f || u == 0x205f
                || u == 0x3000
        },
        CharClass::SentenceEnd => c == '?' || c == '!' || c == '.',
    }
}

/// The text without the characters of the class at its start.
pub open spec fn trim_front(s: Seq<char>, class: CharClass) -> Seq<char>
    decreases s.len(),
{
    if s.len() > 0 && in_class(class, s[0]) {
        trim_front(s.drop_first(), class)
    } else {
        s
    }
}

/// The text without the characters of the class at its end.
pub open spec fn trim_back(s: Seq<char>, class: CharClass) -> Seq<char>
    decreases s.len(),
{
    if s.len() > 0 && in_class(class, s.last()) {
        trim_back(s.drop_last(), class)
    } else {
        s
    }
}

/// The text without the characters of the class at either end.
pub open spec fn trimmed(s: Seq<char>, class: CharClass) -> Seq<char> {
    trim_back(trim_front(s, class), class)
}

proof fn lemma_trim_back_prefix(s: Seq<char>, class: CharClass, end: int)
    requires
        0 <= end <= s.len(),
        forall|j: int| end <= j < s.len() ==> in_class(class, #[trigger] s[j]),
    ensures
        trim_back(s, class) == trim_back(s.take(end), class),
    decreases s.len() - end,
{
    if end < s.len() {
        assert(s.drop_last() =~= s.take(s.len() - 1));
        lemma_trim_back_prefix(s.drop_last(), class, end);
        assert(s.drop_last().take(end) =~= s.take(end));
    } else {
        assert(s.take(end) =~= s);
    }
}

/// Removes the characters of a class from both ends of a text.
pub fn trim_class(s: &str, class: CharClass) -> (t: String)
    ensures
        t@ == trimmed(s@, class),
{
    let chars = chars_of(s);
    let n = chars.len();
    let mut start: usize = 0;
    assert(s@.skip(0) =~= s@);
    while start < n && char_in_class(class, chars[start])
        invariant
            n == chars@.len(),
            chars@ == s@,
            start <= n,
            trim_front(s@, class) == trim_front(s@.skip(start as int), class),
        decreases n - start,
    {
        assert(s@.skip(start as int).drop_first() =~= s@.skip(start + 1));
        start = start + 1;
    }
    let ghost front = s@.skip(start as int);
    assert(trim_front(s@, class) == front) by {
        if start < n {
            assert(front[0] == s@[start as int]);
        } else {
            assert(front.len() == 0);
        }
    }
    let mut end: usize = n;
    while end > start && char_in_class(class, chars[end - 1])
        invariant
            n == chars@.len(),
            chars@ == s@,
            start <= end <= n,
            front == s@.skip(start as int),
            forall|j: int| end <= j < n ==> in_class(class, #[trigger] s@[j]),
        decreases end - start,
    {
        end = end - 1;
    }
    proof {
        assert forall|j: int| end - start <= j < front.len() implies in_class(class, #[trigger] front[j]) by {
            assert(front[j] == s@[start + j]);
        }
        lemma_trim_back_prefix(front, class, end - start);
        let kept = front.take(end - start);
        assert(kept =~= s@.subrange(start as int, end as int));
        if end > start {
            assert(kept.last() == s@[end - 1]);
        }
    }
    s.substring_char(start, end).to_owned()
}

/// Trimming keeps a contiguous part of the text and removes only
/// characters of the class, and what it keeps neither starts nor ends with
/// one.
pub proof fn lemma_trimmed_shape(s: Seq<char>, class: CharClass)
    ensures
        exists|i: int, j: int| 0 <= i <= j <= s.len() && #[trigger] s.subrange(i, j) == trimmed(s, class)
            && (forall|k: int| 0 <= k < i ==> in_class(class, s[k]))
            && (forall|k: int| j <= k < s.len() ==> in_class(class, s[k])),
        trimmed(s, class).len() > 0 ==> !in_class(class, trimmed(s, class)[0])
            && !in_class(class, trimmed(s, class).last()),
{
    let (i, f) = lemma_front_shape(s, class);
    let j = lemma_back_shape(f, class);
    assert(s.subrange(i, i + j) =~= f.take(j));
    assert forall|k: int| i + j <= k < s.len() implies in_class(class, s[k]) by {
        assert(s[k] == f[k - i]);
    }
    let t = trimmed(s, class);
    if t.len() > 0 {
        assert(t[0] == f[0]);
    }
    assert(s.subrange(i, i + j) == trimmed(s, class));
}

proof fn lemma_front_shape(s: Seq<char>, class: CharClass) -> (r: (int, Seq<char>))
    ensures
        0 <= r.0 <= s.len(),
        r.1 == s.skip(r.0),
        r.1 == trim_front(s, class),
        forall|k: int| 0 <= k < r.0 ==> in_class(class, s[k]),
        r.1.len() > 0 ==> !in_class(class, r.1[0]),
    decreases s.len(),
{
    if s.len() > 0 && in_class(class, s[0]) {
        let (i, f) = lemma_front_shape(s.drop_first(), class);
        assert(s.drop_first().skip(i) =~= s.skip(i + 1));
        assert forall|k: int| 0 <= k < i + 1 implies in_class(class, s[k]) by {
            if k > 0 {
                assert(s[k] == s.drop_first()[k - 1]);
            }
        }
        (i + 1, f)
    } else {
        assert(s.skip(0) =~= s);
        (0, s)
    }
}

proof fn lemma_back_shape(s: Seq<char>, class: CharClass) -> (j: int)
    ensures
        0 <= j <= s.len(),
        s.take(j) == trim_back(s, class),
        forall|k: int| j <= k < s.len() ==> in_class(class, s[k]),
        j > 0 ==> !in_class(class, s[j - 1]),
        j > 0 && s.len() > 0 ==> s.take(j)[0] == s[0],
    decreases s.len(),
{
    if s.len() > 0 && in_class(class, s.last()) {
        let j = lemma_back_shape(s.drop_last(), class);
        assert(s.drop_last().take(j) =~= s.take(j));
        assert forall|k: int| j <= k < s.len() implies in_class(class, s[k]) by {
            if k < s.len() - 1 {
                assert(s[k] == s.drop_last()[k]);
            }
        }
        j
    } else {
        assert(s.take(s.len() as int) =~= s);
        s.len() as int
    }
}

/// Joins pieces of text, putting the separator between each two.
pub open spec fn joined(pieces: Seq<Seq<char>>, sep: char) -> Seq<char>
    decreases pieces.len(),
{
    if pieces.len() == 0 {
        Seq::empty()
    } else if pieces.len() == 1 {
        pieces[0]
    } else {
        joined(pieces.drop_last(), sep).push(sep) + pieces.last()
    }
}

/// The pieces of a text between the occurrences of a separator: as many
/// pieces as separators plus one, some of them possibly empty.
pub open spec fn split_on(s: Seq<char>, sep: char) -> Seq<Seq<char>>
    decreases s.len(),
{
    if s.len() == 0 {
        seq![Seq::empty()]
    } else {
        let front = split_on(s.drop_last(), sep);
        if s.last() == sep {
            front.push(Seq::empty())
        } else {
            front.update(front.len() - 1, front.last().push(s.last()))
        }
    }
}

/// Splitting never gives an empty list of pieces.
pub proof fn lemma_split_nonempty(s: Seq<char>, sep: char)
    ensures
        split_on(s, sep).len() >= 1,
    decreases s.len(),
{
    if s.len() > 0 {
        lemma_split_nonempty(s.drop_last(), sep);
    }
}

/// Splitting is undone by joining with the same separator, and no piece
/// holds the separator.
pub proof fn lemma_split_join(s: Seq<char>, sep: char)
    ensures
        joined(split_on(s, sep), sep) == s,
        forall|i: int| 0 <= i < split_on(s, sep).len() ==> !(#[trigger] split_on(s, sep)[i]).contains(sep),
    decreases s.len(),
{
    lemma_split_nonempty(s, sep);
    if s.len() == 0 {
        assert(!Seq::<char>::empty().contains(sep));
    } else {
        let front = split_on(s.drop_last(), sep);
        lemma_split_nonempty(s.drop_last(), sep);
        lemma_split_join(s.drop_last(), sep);
        let pieces = split_on(s, sep);
        if s.last() == sep {
            assert(pieces.drop_last() =~= front);
            assert(joined(pieces, sep) =~= s);
            assert forall|i: int| 0 <= i < pieces.len() implies !(#[trigger] pieces[i]).contains(sep) by {
                if i < front.len() {
                    assert(pieces[i] == front[i]);
                } else {
                    assert(pieces[i] =~= Seq::<char>::empty());
                }
            }
        } else {
            let last = front.last().push(s.last());
            assert forall|i: int| 0 <= i < pieces.len() implies !(#[trigger] pieces[i]).contains(sep) by {
                if i < front.len() - 1 {
                    assert(pieces[i] == front[i]);
                } else {
                    assert(pieces[i] == last);
                    assert(!front[front.len() - 1].contains(sep));
                    if last.contains(sep) {
                        let k = choose|k: int| 0 <= k < last.len() && last[k] == sep;
                        assert(front.last()[k] == sep);
                    }
                }
            }
            if front.len() == 1 {
                assert(joined(front, sep) == front[0]);
                assert(pieces.len() == 1);
                assert(pieces[0] == last);
                assert(s =~= s.drop_last().push(s.last()));
                assert(joined(pieces, sep) =~= s);
            } else {
                assert(pieces.drop_last() =~= front.drop_last());
                assert(joined(front, sep) == joined(front.drop_last(), sep).push(sep) + front.last());
                let head = joined(front.drop_last(), sep).push(sep);
                assert(pieces.last() == last);
                assert(joined(pieces, sep) == head + last);
                assert(head + last =~= (head + front.last()).push(s.last()));
                assert(s =~= s.drop_last().push(s.last()));
                assert(joined(pieces, sep) =~= s);
            }
        }
    }
}

/// Splits a text at every occurrence of the separator character, as
/// `str::split` does with a one-character pattern.
pub fn split_at_char(s: &str, sep: char) -> (pieces: Vec<String>)
    ensures
        pieces@.map_values(|p: String| p@) == split_on(s@, sep),
{
    let chars = chars_of(s);
    let n = chars.len();
    let mut pieces: Vec<String> = Vec::new();
    let mut start: usize = 0;
    let mut i: usize = 0;
    assert(s@.take(0) =~= Seq::<char>::empty());
    assert(s@.subrange(0, 0) =~= Seq::<char>::empty());
    assert(pieces@.map_values(|p: String| p@).push(s@.subrange(0, 0)) =~= seq![Seq::<char>::empty()]);
    while i < n
        invariant
            n == chars@.len(),
            chars@ == s@,
            start <= i <= n,
            pieces@.map_values(|p: String| p@).push(s@.subrange(start as int, i as int))
                == split_on(s@.take(i as int), sep),
        decreases n - i,
    {
        let ghost before = pieces@.map_values(|p: String| p@);
        let ghost piece = s@.subrange(start as int, i as int);
        let ghost t = s@.take(i + 1);
        assert(t.drop_last() =~= s@.take(i as int));
        assert(t.last() == s@[i as int]);
        assert(split_on(s@.take(i as int), sep) == before.push(piece));
        if chars[i] == sep {
            pieces.push(s.substring_char(start, i).to_owned());
            start = i + 1;
            assert(pieces@.map_values(|p: String| p@) =~= before.push(piece));
            assert(s@.subrange(start as int, i + 1) =~= Seq::<char>::empty());
            assert(split_on(t, sep) == before.push(piece).push(Seq::empty()));
        } else {
            assert(s@.subrange(start as int, i + 1) =~= piece.push(s@[i as int]));
            assert(split_on(t, sep) == before.push(piece).update(before.len() as int, piece.push(s@[i as int])));
            assert(before.push(piece).update(before.len() as int, piece.push(s@[i as int])) =~= before.push(piece.push(s@[i as int])));
        }
        i = i + 1;
        assert(pieces@.map_values(|p: String| p@).push(s@.subrange(start as int, i as int))
            =~= split_on(s@.take(i as int), sep));
    }
    pieces.push(s.substring_char(start, n).to_owned());
    assert(s@.take(n as int) =~= s@);
    assert(pieces@.map_values(|p: String| p@) =~= split_on(s@, sep));
    pieces
}


/// Whether two texts hold the same characters.
pub fn same_text(a: &str, b: &str) -> (same: bool)
    ensures
        same == (a@ == b@),
{
    let x = chars_of(a);
    let y = chars_of(b);
    if x.len() != y.len() {
        return false;
    }
    let mut i: usize = 0;
    while i < x.len()
        invariant
            x@ == a@,
            y@ == b@,
            x@.len() == y@.len(),
            i <= x@.len(),
            forall|j: int| 0 <= j < i ==> x@[j] == y@[j],
        decreases x@.len() - i,
    {
        if x[i] != y[i] {
            return false;
        }
        i = i + 1;
    }
    assert(a@ =~= b@);
    true
}

/// The lowercase form of a text, as `str::to_lowercase` produces it
/// (Unicode's full lowercase mapping, taken from std and not restated here).
pub uninterp spec fn lowercase(s: Seq<char>) -> Seq<char>;

/// Calls `str::to_lowercase`. The contract claims that the result's
/// characters are `lowercase` of the argument's characters and nothing
/// more: which mapping Unicode gives each character is left to std.
#[verifier::external_body]
pub(crate) fn to_lowercase_of(s: &str) -> (lower: String)
    ensures
        lower@ == lowercase(s@),
{
    s.to_lowercase()
}

/// Calls `String::push`, which appends one character at the end.
#[verifier::external_body]
pub(crate) fn push_char(s: &mut String, c: char)
    ensures
        final(s)@ == old(s)@.push(c),
{
    s.push(c);
}

/// Calls `std::str::from_utf8` and copies the text out. The contract
/// claims what std documents: the bytes are accepted exactly when they
/// are valid UTF-8, and then the text is their decoding.
#[verifier::external_body]
pub(crate) fn utf8_to_string(bytes: &[u8]) -> (text: Option<String>)
    ensures
        text is Some <==> vstd::utf8::valid_utf8(bytes@),
        text matches Some(t) ==> t@ == vstd::utf8::decode_utf8(bytes@),
{
    match std::str::from_utf8(bytes) {
        Ok(t) => Some(t.to_string()),
        Err(_) => None,
    }
}

/// Whether `needle` occurs in `hay` as a run of consecutive characters.
pub open spec fn occurs_in(hay: Seq<char>, needle: Seq<char>) -> bool {
    exists|i: int| 0 <= i <= hay.len() - needle.len() && #[trigger] hay.subrange(i, i + needle.len()) == needle
}

/// Decides whether `needle` occurs in `hay`, as `str::contains` does with
/// a text pattern.
pub fn contains_text(hay: &str, needle: &str) -> (found: bool)
    ensures
        found == occurs_in(hay@, needle@),
{
    let h = chars_of(hay);
    let n = chars_of(needle);
    if n.len() > h.len() {
        return false;
    }
    if n.len() == 0 {
        assert(hay@.subrange(0int, 0int + needle@.len()) =~= needle@);
        return true;
    }
    let last = h.len() - n.len();
    let mut i: usize = 0;
    while i <= last
        invariant
            h@ == hay@,
            n@ == needle@,
            last == h@.len() - n@.len(),
            i <= last + 1,
            forall|j: int| 0 <= j < i ==> #[trigger] hay@.subrange(j, j + needle@.len()) != needle@,
        decreases last + 1 - i,
    {
        let mut k: usize = 0;
        let mut same = true;
        while k < n.len() && same
            invariant
                h@ == hay@,
                n@ == needle@,
                last == h@.len() - n@.len(),
                i <= last,
                i + n@.len() <= h.len(),
                k <= n.len(),
                same == (forall|m: int| 0 <= m < k ==> hay@[i + m] == needle@[m]),
            decreases n@.len() - k,
        {
            if h[i + k] != n[k] {
                same = false;
            }
            k = k + 1;
        }
        if same {
            assert(hay@.subrange(i as int, i + needle@.len()) =~= needle@);
            return true;
        } else {
            proof {
                let m = choose|m: int| 0 <= m < k && hay@[i + m] != needle@[m];
                assert(hay@.subrange(i as int, i + needle@.len())[m] != needle@[m]);
            }
        }
        i = i + 1;
    }
    assert forall|j: int| 0 <= j <= hay@.len() - needle@.len() implies #[trigger] hay@.subrange(j, j + needle@.len()) != needle@ by {}
    false
}

/// The character of a decimal digit.
pub open spec fn digit_char(d: nat) -> char {
    (48 + d) as char
}

/// The decimal digits of a number, most significant first, without
/// leading zeros (zero is `"0"`).
pub open spec fn decimal(n: nat) -> Seq<char>
    decreases n,
{
    if n < 10 {
        seq![digit_char(n)]
    } else {
        decimal(n / 10).push(digit_char(n % 10))
    }
}

proof fn lemma_decimal_digits(n: nat)
    ensures
        decimal(n).len() >= 1,
        all_digits(decimal(n)),
        digits_value(decimal(n)) == n,
        decimal(n)[0] == '0' ==> n == 0,
    decreases n,
{
    let d = decimal(n);
    assert(digit_char(n % 10) as int == 48 + n % 10);
    if n < 10 {
        assert(d.drop_last() =~= Seq::<char>::empty());
        assert(d.last() == digit_char(n));
        assert(digits_value(d.drop_last()) == 0);
    } else {
        lemma_decimal_digits(n / 10);
        assert(d.drop_last() == decimal(n / 10));
        assert(d.last() == digit_char(n % 10));
        assert(digits_value(d) == digits_value(decimal(n / 10)) * 10 + (n % 10));
        assert forall|i: int| 0 <= i < d.len() implies is_digit(#[trigger] d[i]) by {
            if i < d.len() - 1 {
                assert(d[i] == decimal(n / 10)[i]);
            }
        }
        assert(d[0] == decimal(n / 10)[0]);
    }
}

/// The decimal rendering of a number reads back as that number, and it is
/// a non-empty run of digits without a leading zero (unless the number is
/// zero).
pub proof fn lemma_decimal_round_trip(n: u64)
    ensures
        parsed_u64(decimal(n as nat)) == Some(n),
        parsed_u64(seq!['+'] + decimal(n as nat)) == Some(n),
        decimal(n as nat).len() >= 1,
        all_digits(decimal(n as nat)),
        decimal(n as nat)[0] == '0' ==> n == 0,
{
    lemma_decimal_digits(n as nat);
    let d = decimal(n as nat);
    assert(d[0] != '+');
    assert(without_plus(d) == d);
    assert((seq!['+'] + d).drop_first() =~= d);
    assert(without_plus(seq!['+'] + d) == d);
}

/// A text with a character that is neither a digit nor a leading `+`, or
/// with no digit at all, is not a number.
pub proof fn lemma_parse_rejects(s: Seq<char>, i: int)
    ensures
        parsed_u64(Seq::empty()) is None,
        parsed_u64(seq!['+']) is None,
        (0 < i < s.len() && !is_digit(s[i])) ==> parsed_u64(s) is None,
{
    assert(seq!['+'].drop_first() =~= Seq::<char>::empty());
    if 0 < i < s.len() && !is_digit(s[i]) {
        let ds = without_plus(s);
        if s[0] == '+' {
            assert(ds[i - 1] == s[i]);
        } else {
            assert(ds[i] == s[i]);
        }
    }
}

/// Appends the decimal digits of a number to a text.
pub fn push_decimal(s: &mut String, n: u64)
    ensures
        final(s)@ == old(s)@ + decimal(n as nat),
    decreases n,
{
    if n >= 10 {
        push_decimal(s, n / 10);
    }
    let d = n % 10;
    let c = match d {
        0 => '0',
        1 => '1',
        2 => '2',
        3 => '3',
        4 => '4',
        5 => '5',
        6 => '6',
        7 => '7',
        8 => '8',
        _ => '9',
    };
    assert(c == digit_char(d as nat));
    push_char(s, c);
    proof {
        if n >= 10 {
            assert(old(s)@ + decimal(n as nat) =~= old(s)@ + decimal((n / 10) as nat) + seq![digit_char(d as nat)]);
        } else {
            assert(old(s)@ + decimal(n as nat) =~= old(s)@.push(digit_char(d as nat)));
        }
    }
}


/// Whether a character is an ASCII decimal digit.
pub open spec fn is_digit(c: char) -> bool {
    '0' <= c <= '9'
}

/// The number written by a run of decimal digits.
pub open spec fn digits_value(ds: Seq<char>) -> int
    decreases ds.len(),
{
    if ds.len() == 0 {
        0
    } else {
        digits_value(ds.drop_last()) * 10 + (ds.last() as int - '0' as int)
    }
}

/// The text without one leading `+`, if it has one.
pub open spec fn without_plus(s: Seq<char>) -> Seq<char> {
    if s.len() > 0 && s[0] == '+' {
        s.drop_first()
    } else {
        s
    }
}

/// Whether every character is a decimal digit.
pub open spec fn all_digits(ds: Seq<char>) -> bool {
    forall|i: int| 0 <= i < ds.len() ==> is_digit(#[trigger] ds[i])
}

/// The unsigned 64-bit number a text denotes, as `u64::from_str` reads it:
/// an optional `+` followed by at least one decimal digit and nothing else,
/// with a value that fits in 64 bits.
pub open spec fn parsed_u64(s: Seq<char>) -> Option<u64> {
    let ds = without_plus(s);
    if ds.len() > 0 && all_digits(ds) && digits_value(ds) <= u64::MAX {
        Some(digits_value(ds) as u64)
    } else {
        None
    }
}

proof fn lemma_digits_value_monotone(ds: Seq<char>, k: int)
    requires
        0 <= k <= ds.len(),
        forall|i: int| 0 <= i < ds.len() ==> is_digit(#[trigger] ds[i]),
    ensures
        0 <= digits_value(ds.take(k)) <= digits_value(ds),
    decreases ds.len() - k,
{
    if k < ds.len() {
        lemma_digits_value_monotone(ds, k + 1);
        assert(ds.take(k + 1).drop_last() =~= ds.take(k));
        assert(is_digit(ds[k]));
        assert(ds.take(k + 1).last() == ds[k]);
        lemma_digits_value_nonneg(ds.take(k));
    } else {
        assert(ds.take(k) =~= ds);
        lemma_digits_value_nonneg(ds);
    }
}

proof fn lemma_digits_value_nonneg(ds: Seq<char>)
    requires
        forall|i: int| 0 <= i < ds.len() ==> is_digit(#[trigger] ds[i]),
    ensures
        digits_value(ds) >= 0,
    decreases ds.len(),
{
    if ds.len() > 0 {
        lemma_digits_value_nonneg(ds.drop_last());
        assert(is_digit(ds[ds.len() - 1]));
    }
}

/// Reads an unsigned 64-bit number as `u64::from_str` does.
#[verifier::spinoff_prover]
#[verifier::rlimit(40)]
pub fn parse_u64(s: &str) -> (n: Option<u64>)
    ensures
        n == parsed_u64(s@),
{
    let chars = chars_of(s);
    let mut start: usize = 0;
    if chars.len() > 0 && chars[0] == '+' {
        start = 1;
    }
    let ghost ds = without_plus(s@);
    assert(ds =~= s@.skip(start as int));
    if start == chars.len() {
        return None;
    }
    let mut value: u64 = 0;
    let mut i: usize = start;
    while i < chars.len()
        invariant
            chars@ == s@,
            start <= i <= chars@.len(),
            ds == s@.skip(start as int),
            ds == without_plus(s@),
            forall|j: int| 0 <= j < i - start ==> is_digit(#[trigger] ds[j]),
            value as int == digits_value(ds.take(i - start)),
        decreases chars@.len() - i,
    {
        let c = chars[i];
        assert(ds[i - start] == c);
        if !('0' <= c && c <= '9') {
            assert(!is_digit(ds[i - start]));
            assert(!all_digits(ds));
            return None;
        }
        let d = (c as u32 - '0' as u32) as u64;
        assert(d == c as int - '0' as int);
        assert(ds.take(i + 1 - start).drop_last() =~= ds.take(i - start));
        assert(ds.take(i + 1 - start).last() == c);
        let next = match value.checked_mul(10) {
            Some(v) => v.checked_add(d),
            None => None,
        };
        match next {
            Some(v) => {
                value = v;
            },
            None => {
                proof {
                    assert(digits_value(ds.take(i + 1 - start)) == value * 10 + d);
                    assert(value * 10 + d > u64::MAX);
                    assert forall|j: int| 0 <= j < i + 1 - start implies is_digit(#[trigger] ds.take(i + 1 - start)[j]) by {
                        assert(ds.take(i + 1 - start)[j] == ds[j]);
                    }
                    if all_digits(ds) {
                        lemma_digits_value_monotone(ds, i + 1 - start);
                    }
                }
                return None;
            },
        }
        i = i + 1;
    }
    assert(ds.take(i - start) =~= ds);
    Some(value)
}

} // verus!
